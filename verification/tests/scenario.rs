use rawdb::archive::archive_action;
use rawdb::archive::archive_step;
use rawdb::archive::ArchiveAction;
use rawdb::archive::ArchiveEvent;
use rawdb::archive::ArchiveState;
use rawdb::images::Date;
use rawdb::images::ImageAdv;
use rawdb::images::ImageBasic;
use rawdb::store::add_to_table;
use rawdb::store::get_images_to_archive;
use rawdb::store::populate_new_table;
use rawdb::store::set_images_as_archived;
use rawdb::store::update_table_get_new;
use rawdb::store::Store;
use rawdb::store::TableType;

/// A flat pretend filesystem for one root: (relative path, size, date).
struct SimRoot {
    files: Vec<(String, u64, Date)>,
}

impl SimRoot {
    fn scan(&self) -> Vec<ImageBasic> {
        self.files
            .iter()
            .map(|(p, s, _)| ImageBasic {
                path: p.clone(),
                size: *s,
            })
            .collect()
    }

    fn date_of(&self, path: &str) -> Date {
        self.files
            .iter()
            .find(|(p, _, _)| p == path)
            .map(|(_, _, d)| *d)
            .unwrap()
    }

    fn has_file(&self, path: &str) -> bool {
        self.files.iter().any(|(p, _, _)| p == path)
    }

    fn size_of(&self, path: &str) -> Option<u64> {
        self.files
            .iter()
            .find(|(p, _, _)| p == path)
            .map(|(_, s, _)| *s)
    }
}

/// One scan-and-commit phase for one catalog: stage, dedupe, diff, enrich
/// every new entry with its date, commit.  Returns how many records the
/// diff removed and how many entries were new.
fn run_phase(store: &mut Store, table: TableType, root: &SimRoot) -> (usize, usize) {
    populate_new_table(store, table, root.scan()).unwrap();
    let result = update_table_get_new(store, table);
    let enriched: Vec<ImageAdv> = result
        .new_entries
        .iter()
        .map(|b| ImageAdv {
            basic: b.clone(),
            date: root.date_of(&b.path),
        })
        .collect();
    let new_count = enriched.len();
    add_to_table(store, table, enriched).unwrap();
    (result.removed, new_count)
}

/// Copies one worklist entry from the source root into the target root,
/// stripping the `target/` prefix the action paths carry in these tests.
fn sim_archive(image: &ImageAdv, source: &SimRoot, target: &mut SimRoot) -> ArchiveState {
    let mut st = ArchiveState::MakingDir;
    loop {
        let action = archive_action(image, "source", "target", &st);
        let ev = match action {
            None => return st,
            Some(ArchiveAction::CreateDir { path: _ }) => ArchiveEvent::DirMade { ok: true },
            Some(ArchiveAction::CheckExists { path }) => ArchiveEvent::DestChecked {
                exists: target.has_file(path.strip_prefix("target/").unwrap()),
            },
            Some(ArchiveAction::CopyFile { from, to }) => {
                let rel_from = from.strip_prefix("source/").unwrap();
                let rel_to = to.strip_prefix("target/").unwrap().to_string();
                match source.size_of(rel_from) {
                    Some(size) => {
                        let date = source.date_of(rel_from);
                        target.files.push((rel_to, size, date));
                        ArchiveEvent::Copied { ok: true }
                    }
                    None => ArchiveEvent::Copied { ok: false },
                }
            }
            Some(ArchiveAction::ReadSize { path }) => {
                match target.size_of(path.strip_prefix("target/").unwrap()) {
                    Some(size) => ArchiveEvent::SizeRead { size },
                    None => ArchiveEvent::SizeReadFailed,
                }
            }
            Some(ArchiveAction::RemoveFile { path }) => {
                target.remove_rel(path.strip_prefix("target/").unwrap());
                ArchiveEvent::Removed { ok: true }
            }
        };
        st = archive_step(image.basic.size, st, ev);
    }
}

impl SimRoot {
    fn remove_rel(&mut self, path: &str) {
        self.files.retain(|(p, _, _)| p != path);
    }
}

#[test]
fn test_reconcile_twice_is_noop() {
    // An unchanged filesystem reconciled twice: the second pass removes
    // nothing and finds nothing new.
    let root = SimRoot {
        files: vec![
            (
                "a.jpg".to_string(),
                100,
                Date {
                    year: 2023,
                    month: 1,
                    day: 1,
                },
            ),
            (
                "sub/c.jpg".to_string(),
                7,
                Date {
                    year: 2023,
                    month: 3,
                    day: 4,
                },
            ),
        ],
    };
    let mut store = Store::new();
    run_phase(&mut store, TableType::Disk, &root);
    let (removed, new_count) = run_phase(&mut store, TableType::Disk, &root);
    assert_eq!(removed, 0);
    assert_eq!(new_count, 0);
}

#[test]
fn test_removed_entry_forgotten_and_rediscovered() {
    // A record whose file disappears is deleted; when the file returns
    // unchanged, it is reported as new again.
    let date = Date {
        year: 2023,
        month: 1,
        day: 1,
    };
    let full = SimRoot {
        files: vec![("e.jpg".to_string(), 42, date)],
    };
    let empty = SimRoot { files: vec![] };

    let mut store = Store::new();
    run_phase(&mut store, TableType::Disk, &full);

    let (removed, new_count) = run_phase(&mut store, TableType::Disk, &empty);
    assert_eq!(removed, 1);
    assert_eq!(new_count, 0);

    populate_new_table(&mut store, TableType::Disk, full.scan()).unwrap();
    let result = update_table_get_new(&mut store, TableType::Disk);
    assert_eq!(result.removed, 0);
    assert_eq!(result.new_entries.len(), 1);
    assert_eq!(result.new_entries[0].path, "e.jpg");
    assert_eq!(result.new_entries[0].size, 42);
}

#[test]
fn test_end_to_end_two_runs() {
    let d1 = Date {
        year: 2023,
        month: 1,
        day: 1,
    };
    let d2 = Date {
        year: 2023,
        month: 1,
        day: 2,
    };
    let mut target = SimRoot {
        files: vec![("a.jpg".to_string(), 100, d1)],
    };
    let source = SimRoot {
        files: vec![
            ("a.jpg".to_string(), 100, d1),
            ("b.jpg".to_string(), 50, d2),
        ],
    };

    // First run: scan both roots, match, archive, mark.
    let mut store = Store::new();
    run_phase(&mut store, TableType::Disk, &target);
    run_phase(&mut store, TableType::Camera, &source);

    let worklist = get_images_to_archive(&store).unwrap();
    assert_eq!(worklist.len(), 1);
    assert_eq!(worklist[0].basic.path, "b.jpg");

    let mut archived: Vec<ImageAdv> = Vec::new();
    for image in &worklist {
        let end = sim_archive(image, &source, &mut target);
        assert_eq!(end, ArchiveState::Succeeded);
        archived.push(image.clone());
    }
    set_images_as_archived(&mut store, &archived);

    assert!(target.has_file("2023-01-02/b.jpg"));
    assert_eq!(target.size_of("2023-01-02/b.jpg"), Some(50));

    // Second run over the changed target and unchanged source: nothing
    // left to archive.
    run_phase(&mut store, TableType::Disk, &target);
    run_phase(&mut store, TableType::Camera, &source);
    let worklist2 = get_images_to_archive(&store).unwrap();
    assert!(worklist2.is_empty());
}
