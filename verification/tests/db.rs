use rawdb::images::Date;
use rawdb::images::ImageAdv;
use rawdb::images::ImageBasic;
use rawdb::store::add_to_table;
use rawdb::store::get_images_to_archive;
use rawdb::store::populate_new_table;
use rawdb::store::set_images_as_archived;
use rawdb::store::update_table_get_new;
use rawdb::store::Store;
use rawdb::store::StoreError;
use rawdb::store::TableType;

struct TestRng {
    state: u64,
}

impl TestRng {
    fn new(seed: u64) -> TestRng {
        TestRng { state: seed }
    }

    fn next(&mut self) -> u64 {
        self.state = self
            .state
            .wrapping_mul(6364136223846793005)
            .wrapping_add(1442695040888963407);
        self.state >> 33
    }
}

fn gen_random_image(counter: &mut u32, rng: &mut TestRng) -> ImageAdv {
    *counter += 1;
    ImageAdv {
        basic: ImageBasic {
            path: format!("/path/{}.jpg", counter),
            size: rng.next() as u32 as u64,
        },
        date: Date {
            year: 2024,
            month: 6,
            day: 9,
        },
    }
}

fn gen_random_groups(enabled: Vec<bool>, rng: &mut TestRng) -> Vec<Vec<ImageAdv>> {
    let mut vecs: Vec<Vec<ImageAdv>> = Vec::new();
    let mut image_counter = 0;

    for gen_images in enabled.into_iter() {
        let mut vec: Vec<ImageAdv> = Vec::new();
        if gen_images {
            let count = 1 + rng.next() % 9;
            for _ in 0..count {
                vec.push(gen_random_image(&mut image_counter, rng));
            }
        }
        vecs.push(vec);
    }

    vecs
}

fn test_update_table(find_new: bool, find_common: bool, find_old: bool, table: TableType) {
    let mut rng = TestRng::new(
        1 + (find_new as u64) + 2 * (find_common as u64) + 4 * (find_old as u64),
    );
    let vecs: Vec<Vec<ImageAdv>> = gen_random_groups(vec![find_new, find_common, find_old], &mut rng);

    let mut store = Store::new();

    // Setup tables
    let staged: Vec<ImageBasic> = vecs[0]
        .iter()
        .chain(vecs[1].iter())
        .map(|i| i.basic.clone())
        .collect();
    populate_new_table(&mut store, table, staged).unwrap();
    add_to_table(
        &mut store,
        table,
        vecs[1]
            .iter()
            .cloned()
            .chain(vecs[2].iter().cloned())
            .collect(),
    )
    .unwrap();

    let actual_new = update_table_get_new(&mut store, table).new_entries;

    assert_eq!(
        vecs[0].iter().map(|i| &i.basic).collect::<Vec<_>>(),
        actual_new.iter().collect::<Vec<_>>(),
    );
}

#[test]
fn test_update_table_loop() {
    for bits in 0..16u32 {
        let new = bits & 1 != 0;
        let common = bits & 2 != 0;
        let old = bits & 4 != 0;
        let is_camera = bits & 8 != 0;
        let table = if is_camera {
            TableType::Camera
        } else {
            TableType::Disk
        };
        println!(
            "new: {}, common: {}, old: {}, table: {:?}",
            new, common, old, table
        );
        test_update_table(new, common, old, table);
    }
}

fn test_archive_images(find_new: bool, find_common: bool, find_old: bool, set_archived: bool) {
    let mut rng = TestRng::new(
        9 + (find_new as u64) + 2 * (find_common as u64) + 4 * (find_old as u64),
    );
    let vecs: Vec<Vec<ImageAdv>> = gen_random_groups(vec![find_new, find_common, find_old], &mut rng);

    let mut store = Store::new();

    // Setup tables
    add_to_table(
        &mut store,
        TableType::Camera,
        vecs[0]
            .iter()
            .cloned()
            .chain(vecs[1].iter().cloned())
            .collect(),
    )
    .unwrap();
    add_to_table(
        &mut store,
        TableType::Disk,
        vecs[1]
            .iter()
            .cloned()
            .chain(vecs[2].iter().cloned())
            .collect(),
    )
    .unwrap();
    if set_archived {
        let saved: Vec<ImageAdv> = vecs[1].to_vec();
        set_images_as_archived(&mut store, &saved);
    }

    let actual_common = get_images_to_archive(&store).unwrap();

    assert_eq!(
        vecs[0].iter().collect::<Vec<_>>(),
        actual_common.iter().collect::<Vec<_>>(),
    );
}

#[test]
fn test_archive_images_loop() {
    for bits in 0..16u32 {
        let new = bits & 1 != 0;
        let common = bits & 2 != 0;
        let old = bits & 4 != 0;
        let set_archived = bits & 8 != 0;
        println!(
            "new: {}, common: {}, old: {}, set_archived: {}",
            new, common, old, set_archived
        );
        test_archive_images(new, common, old, set_archived);
    }
}

#[test]
fn test_populate_reports_duplicates() {
    // Two staged entries share (display name, size): exactly one cluster,
    // holding both paths, and the staging set keeps one representative.
    let mut store = Store::new();
    let scan = vec![
        ImageBasic {
            path: "a/img.jpg".to_string(),
            size: 100,
        },
        ImageBasic {
            path: "b/img.jpg".to_string(),
            size: 100,
        },
        ImageBasic {
            path: "c/other.jpg".to_string(),
            size: 7,
        },
    ];
    let dups = populate_new_table(&mut store, TableType::Disk, scan).unwrap();
    assert_eq!(dups.len(), 1);
    assert_eq!(dups[0].name, "img.jpg");
    assert_eq!(
        dups[0].paths,
        vec!["a/img.jpg".to_string(), "b/img.jpg".to_string()]
    );

    let new = update_table_get_new(&mut store, TableType::Disk).new_entries;
    assert_eq!(new.len(), 2);
    assert_eq!(new[0].path, "a/img.jpg");
    assert_eq!(new[1].path, "c/other.jpg");
}

#[test]
fn test_populate_rejects_duplicate_identity() {
    let mut store = Store::new();
    let scan = vec![
        ImageBasic {
            path: "x/a.jpg".to_string(),
            size: 1,
        },
        ImageBasic {
            path: "x/a.jpg".to_string(),
            size: 2,
        },
    ];
    let r = populate_new_table(&mut store, TableType::Disk, scan);
    match r {
        Err(StoreError::DuplicateIdentity { path }) => assert_eq!(path, "x/a.jpg"),
        _ => panic!("expected a duplicate-identity error"),
    }
}

#[test]
fn test_add_rejects_existing_identity() {
    let mut store = Store::new();
    let img = ImageAdv {
        basic: ImageBasic {
            path: "a.jpg".to_string(),
            size: 5,
        },
        date: Date {
            year: 2023,
            month: 1,
            day: 1,
        },
    };
    add_to_table(&mut store, TableType::Disk, vec![img.clone()]).unwrap();
    let r = add_to_table(&mut store, TableType::Disk, vec![img.clone()]);
    assert!(matches!(r, Err(StoreError::DuplicateIdentity { .. })));
    // The camera catalog is separate: the same identity is fine there.
    add_to_table(&mut store, TableType::Camera, vec![img]).unwrap();
}

#[test]
fn test_match_conflict_fails_without_worklist() {
    // Same display name and date in both catalogs, different sizes: the
    // matcher fails whole and produces no worklist.
    let mut store = Store::new();
    let cam = ImageAdv {
        basic: ImageBasic {
            path: "dcim/a.jpg".to_string(),
            size: 100,
        },
        date: Date {
            year: 2023,
            month: 1,
            day: 1,
        },
    };
    let disk = ImageAdv {
        basic: ImageBasic {
            path: "2023-01-01/a.jpg".to_string(),
            size: 50,
        },
        date: Date {
            year: 2023,
            month: 1,
            day: 1,
        },
    };
    add_to_table(&mut store, TableType::Camera, vec![cam]).unwrap();
    add_to_table(&mut store, TableType::Disk, vec![disk]).unwrap();
    match get_images_to_archive(&store) {
        Err(StoreError::SizeMismatch { mismatches }) => {
            assert_eq!(mismatches.len(), 1);
            assert_eq!(mismatches[0].camera_path, "dcim/a.jpg");
            assert_eq!(mismatches[0].camera_size, 100);
            assert_eq!(mismatches[0].disk_path, "2023-01-01/a.jpg");
            assert_eq!(mismatches[0].disk_size, 50);
        }
        _ => panic!("expected a size-mismatch error"),
    }
}

#[test]
fn test_set_archived_marks_only_listed() {
    let mut store = Store::new();
    let a = ImageAdv {
        basic: ImageBasic {
            path: "a.jpg".to_string(),
            size: 1,
        },
        date: Date {
            year: 2023,
            month: 2,
            day: 3,
        },
    };
    let b = ImageAdv {
        basic: ImageBasic {
            path: "b.jpg".to_string(),
            size: 2,
        },
        date: Date {
            year: 2023,
            month: 2,
            day: 4,
        },
    };
    add_to_table(&mut store, TableType::Camera, vec![a.clone(), b]).unwrap();
    let saved = vec![a];
    set_images_as_archived(&mut store, &saved);
    // The archived record no longer appears in the worklist; the other does.
    let work = get_images_to_archive(&store).unwrap();
    assert_eq!(work.len(), 1);
    assert_eq!(work[0].basic.path, "b.jpg");
}

#[test]
fn test_reconcile_empty_scan_clears_catalog() {
    let mut store = Store::new();
    let img = ImageAdv {
        basic: ImageBasic {
            path: "gone.jpg".to_string(),
            size: 9,
        },
        date: Date {
            year: 2022,
            month: 12,
            day: 31,
        },
    };
    add_to_table(&mut store, TableType::Disk, vec![img]).unwrap();
    populate_new_table(&mut store, TableType::Disk, Vec::new()).unwrap();
    let r = update_table_get_new(&mut store, TableType::Disk);
    assert_eq!(r.removed, 1);
    assert_eq!(r.kept, 0);
    assert!(r.new_entries.is_empty());
}

#[test]
fn test_size_change_treated_as_new() {
    // A record whose identity stays but whose size changed is dropped and
    // the staged entry comes back as new.
    let mut store = Store::new();
    let img = ImageAdv {
        basic: ImageBasic {
            path: "a.jpg".to_string(),
            size: 10,
        },
        date: Date {
            year: 2023,
            month: 5,
            day: 5,
        },
    };
    add_to_table(&mut store, TableType::Disk, vec![img]).unwrap();
    let rescan = vec![ImageBasic {
        path: "a.jpg".to_string(),
        size: 11,
    }];
    populate_new_table(&mut store, TableType::Disk, rescan).unwrap();
    let r = update_table_get_new(&mut store, TableType::Disk);
    assert_eq!(r.removed, 1);
    assert_eq!(r.kept, 0);
    assert_eq!(r.new_entries.len(), 1);
    assert_eq!(r.new_entries[0].path, "a.jpg");
    assert_eq!(r.new_entries[0].size, 11);
}
