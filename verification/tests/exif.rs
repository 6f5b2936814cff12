use image_meta::error::AppError;
use image_meta::error::InvalidInput;
use image_meta::exif::direct_rating;
use image_meta::exif::extract_exif_info;
use image_meta::exif::extract_rating;
use image_meta::exif::percent_rating;
use image_meta::exif::rating_fields;
use image_meta::exif::ExifField;
use image_meta::exif::ExifInfo;
use image_meta::exif::ExifValue;

fn text(tag_id: u16, value: &str) -> ExifField {
    ExifField { tag_id, value: ExifValue::Text(value.to_string()) }
}

fn shorts(tag_id: u16, values: Vec<u16>) -> ExifField {
    ExifField { tag_id, value: ExifValue::Shorts(values) }
}

#[test]
fn dates_and_rating_are_read_by_tag() {
    let fields = vec![
        text(306, "2024:01:03 10:00:00"),
        text(36867, "2024:01:01 10:00:00"),
        text(36868, "2024:01:02 10:00:00"),
        text(271, "Maker"),
        shorts(18246, vec![4]),
    ];
    assert_eq!(
        extract_exif_info(&fields),
        Some(ExifInfo {
            date_time_original: Some("2024:01:01 10:00:00".to_string()),
            create_date: Some("2024:01:02 10:00:00".to_string()),
            modify_date: Some("2024:01:03 10:00:00".to_string()),
            rating: Some(4),
        })
    );
}

#[test]
fn container_without_dates_or_rating_states_nothing() {
    assert_eq!(extract_exif_info(&vec![]), None);
    let fields = vec![
        text(271, "Maker"),
        shorts(306, vec![1]),
        ExifField { tag_id: 36867, value: ExifValue::Other },
        shorts(18246, vec![]),
        shorts(18246, vec![6]),
        shorts(18249, vec![]),
        ExifField { tag_id: 18249, value: ExifValue::Longs(vec![50]) },
    ];
    assert_eq!(extract_exif_info(&fields), None);
}

#[test]
fn rating_of_every_type() {
    assert_eq!(direct_rating(&text(18246, "3")), Some(3));
    assert_eq!(direct_rating(&text(18246, "+3")), Some(3));
    assert_eq!(direct_rating(&text(18246, "03")), Some(3));
    assert_eq!(direct_rating(&text(18246, " 3")), None);
    assert_eq!(direct_rating(&text(18246, "")), None);
    assert_eq!(direct_rating(&text(18246, "6")), None);
    assert_eq!(direct_rating(&text(18246, "99999999999")), None);
    assert_eq!(direct_rating(&text(18247, "3")), None);
    assert_eq!(direct_rating(&shorts(18246, vec![5, 1])), Some(5));
    assert_eq!(direct_rating(&shorts(18246, vec![256])), None);
    assert_eq!(
        direct_rating(&ExifField { tag_id: 18246, value: ExifValue::Bytes(vec![2]) }),
        Some(2)
    );
    assert_eq!(
        direct_rating(&ExifField { tag_id: 18246, value: ExifValue::Bytes(vec![200]) }),
        None
    );
    assert_eq!(
        direct_rating(&ExifField { tag_id: 18246, value: ExifValue::Longs(vec![1]) }),
        Some(1)
    );
    assert_eq!(
        direct_rating(&ExifField { tag_id: 18246, value: ExifValue::Longs(vec![4_294_967_295]) }),
        None
    );
    assert_eq!(direct_rating(&ExifField { tag_id: 18246, value: ExifValue::Other }), None);
    assert_eq!(percent_rating(&shorts(18249, vec![75])), Some(4));
    assert_eq!(percent_rating(&shorts(18249, vec![65535])), Some(0));
    assert_eq!(percent_rating(&shorts(18246, vec![75])), None);
    assert_eq!(percent_rating(&text(18249, "75")), None);
}

#[test]
fn direct_rating_counts_before_percent() {
    assert_eq!(
        extract_rating(&vec![shorts(18249, vec![99]), shorts(18246, vec![2])]),
        Some(2)
    );
    assert_eq!(
        extract_rating(&vec![shorts(18246, vec![2]), shorts(18249, vec![99])]),
        Some(2)
    );
    assert_eq!(
        extract_rating(&vec![shorts(18246, vec![1]), shorts(18246, vec![3])]),
        Some(3)
    );
    assert_eq!(
        extract_rating(&vec![shorts(18249, vec![30]), shorts(18249, vec![99])]),
        Some(2)
    );
    assert_eq!(
        extract_rating(&vec![shorts(18246, vec![9]), shorts(18249, vec![99])]),
        Some(5)
    );
}

#[test]
fn last_date_counts() {
    let fields = vec![text(36867, "first"), text(36867, "second"), shorts(36867, vec![1])];
    assert_eq!(
        extract_exif_info(&fields).unwrap().date_time_original,
        Some("second".to_string())
    );
}

#[test]
fn written_fields_read_back() {
    for rating in 0..=5u32 {
        let (stars, percent) = rating_fields(rating).unwrap();
        assert_eq!(stars.tag_id, 18246);
        assert_eq!(percent.tag_id, 18249);
        assert_eq!(stars.value, ExifValue::Shorts(vec![rating as u16]));
        let expected = [0u16, 1, 25, 50, 75, 99][rating as usize];
        assert_eq!(percent.value, ExifValue::Shorts(vec![expected]));
        assert_eq!(
            extract_rating(&vec![text(271, "Maker"), stars.clone(), percent.clone()]),
            Some(rating as u8)
        );
        assert_eq!(extract_rating(&vec![percent]), Some(rating as u8));
    }
    assert_eq!(
        rating_fields(6),
        Err(AppError::InvalidInput(InvalidInput::OutOfRange))
    );
}
