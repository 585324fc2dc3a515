use beditor::change_viewer::{ChangeHits, ChangeViewerTitle, ComponentLookup};
use beditor::text::{layout_job, LayoutSection};

#[test]
fn layout_job_sections_cover_text() {
    let job = layout_job(&[(1u8, "héllo"), (2u8, ""), (3u8, " world")]);
    assert_eq!(job.text, "héllo world");
    assert_eq!(
        job.sections,
        vec![
            LayoutSection { byte_start: 0, byte_end: 6, font: 1 },
            LayoutSection { byte_start: 6, byte_end: 6, font: 2 },
            LayoutSection { byte_start: 6, byte_end: 12, font: 3 },
        ]
    );
    let empty = layout_job::<u8>(&[]);
    assert!(empty.text.is_empty() && empty.sections.is_empty());
}

#[test]
fn change_hits_count_per_location() {
    let mut hits = ChangeHits::new();
    hits.record(1, "src/a.rs", 10);
    hits.record(1, "src/a.rs", 10);
    hits.record(1, "src/a.rs", 11);
    hits.record(2, "src/a.rs", 10);
    assert_eq!(hits.count(1, "src/a.rs", 10), 2);
    assert_eq!(hits.count(1, "src/a.rs", 11), 1);
    assert_eq!(hits.count(2, "src/a.rs", 10), 1);
    assert_eq!(hits.count(2, "src/b.rs", 10), 0);
}

#[test]
fn change_viewer_title_found_over_two_frames() {
    let mut title = ChangeViewerTitle::<u32>::new(None);
    let find = || ComponentLookup::TypeId(7u32);
    let path = |t: u32| if t == 7 { Some(String::from("Transform")) } else { None };
    assert_eq!(title.title(true, find, path), "ChangeViewerUi");
    assert_eq!(title.title(true, find, path), "ChangeViewerUi - Transform");
    let nothing = || ComponentLookup::<u32>::Missing;
    let no_path = |_t: u32| None;
    assert_eq!(title.title(true, nothing, no_path), "ChangeViewerUi - Transform");
}

#[test]
fn change_viewer_title_gives_up_after_failed_lookup() {
    let mut title = ChangeViewerTitle::<u32>::new(None);
    let path = |_t: u32| Some(String::from("Transform"));
    assert_eq!(title.title(false, || ComponentLookup::TypeId(1u32), path), "ChangeViewerUi");
    assert_eq!(title.title(true, || ComponentLookup::<u32>::NoTypeId, path), "ChangeViewerUi");
    assert_eq!(title.title(true, || ComponentLookup::TypeId(1u32), path), "ChangeViewerUi");
    assert_eq!(title.title(true, || ComponentLookup::TypeId(1u32), path), "ChangeViewerUi");
    let mut known = ChangeViewerTitle::new(Some(3u32));
    assert_eq!(known.title(true, || ComponentLookup::Missing, |_t: u32| None), "ChangeViewerUi");
    assert_eq!(known.title(true, || ComponentLookup::Missing, path), "ChangeViewerUi - Transform");
}

#[test]
fn layout_job_of_concatenation_is_jobs_joined() {
    let a = [(1u8, "ab"), (2u8, "é")];
    let b = [(3u8, "xyz"), (4u8, "")];
    let ab: Vec<(u8, &str)> = a.iter().chain(b.iter()).copied().collect();
    let (ja, jb, jab) = (layout_job(&a), layout_job(&b), layout_job(&ab));
    assert_eq!(jab.text, ja.text.clone() + &jb.text);
    let shift = ja.text.len();
    let mut expected = ja.sections.clone();
    for s in &jb.sections {
        expected.push(LayoutSection { byte_start: s.byte_start + shift, byte_end: s.byte_end + shift, font: s.font });
    }
    assert_eq!(jab.sections, expected);
}
