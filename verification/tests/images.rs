use rawdb::archive::dest_path;
use rawdb::archive::join_path;
use rawdb::images::Date;
use rawdb::images::ImageAdv;
use rawdb::images::ImageBasic;

#[test]
fn test_get_name_nested_path() {
    let img = ImageBasic {
        path: "2023/05/dcim_0001.jpg".to_string(),
        size: 1,
    };
    assert_eq!(img.get_name(), "dcim_0001.jpg");
}

#[test]
fn test_get_name_bare_file() {
    let img = ImageBasic {
        path: "clip.mov".to_string(),
        size: 1,
    };
    assert_eq!(img.get_name(), "clip.mov");
}

#[test]
fn test_date_new_accepts_calendar_shapes() {
    assert_eq!(
        Date::new(2023, 1, 2),
        Some(Date {
            year: 2023,
            month: 1,
            day: 2
        })
    );
    assert_eq!(Date::new(2023, 0, 2), None);
    assert_eq!(Date::new(2023, 13, 2), None);
    assert_eq!(Date::new(2023, 1, 0), None);
    assert_eq!(Date::new(2023, 1, 32), None);
    assert_eq!(Date::new(10000, 1, 2), None);
}

#[test]
fn test_bucket_name_formats_and_pads() {
    let d = Date {
        year: 2023,
        month: 1,
        day: 2,
    };
    assert_eq!(d.bucket_name(), "2023-01-02");
    let early = Date {
        year: 987,
        month: 12,
        day: 31,
    };
    assert_eq!(early.bucket_name(), "0987-12-31");
}

#[test]
fn test_join_path() {
    assert_eq!(join_path("/archive", "b.jpg"), "/archive/b.jpg");
    assert_eq!(join_path("", "b.jpg"), "/b.jpg");
}

#[test]
fn test_dest_path_uses_bucket_and_display_name() {
    let img = ImageAdv {
        basic: ImageBasic {
            path: "dcim/raw/b.jpg".to_string(),
            size: 50,
        },
        date: Date {
            year: 2023,
            month: 1,
            day: 2,
        },
    };
    assert_eq!(dest_path(&img, "/archive"), "/archive/2023-01-02/b.jpg");
}
