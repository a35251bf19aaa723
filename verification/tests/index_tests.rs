use image_puller::boxes::build_box_index;
use image_puller::categories::{build_members, dedup_ids};
use image_puller::crop::PersonLabel;
use image_puller::labels::resolve_labels;
use image_puller::rows::BuildError;
use image_puller::urls::build_url_index;

fn row(fields: &[&str]) -> Vec<String> {
    fields.iter().map(|s| s.to_string()).collect()
}

#[test]
fn resolves_both_labels() {
    let rows = vec![row(&["/c1", "Woman"]), row(&["/c2", "Man"])];
    let (w, m) = resolve_labels(&rows).unwrap();
    assert_eq!(w, "/c1");
    assert_eq!(m, "/c2");
}

#[test]
fn resolve_picks_first_occurrence() {
    let rows = vec![
        row(&["/c0", "Cat"]),
        row(&["/c1", "Woman"]),
        row(&["/c3", "Woman"]),
        row(&["/c2", "Man"]),
        row(&["/c4", "Man"]),
    ];
    let (w, m) = resolve_labels(&rows).unwrap();
    assert_eq!(w, "/c1");
    assert_eq!(m, "/c2");
}

#[test]
fn resolve_ignores_other_rows_anywhere() {
    let with_noise = vec![
        row(&["/c9", "Tree"]),
        row(&["/c1", "Woman"]),
        row(&["/c8", "Dog"]),
        row(&["/c2", "Man"]),
    ];
    let plain = vec![row(&["/c1", "Woman"]), row(&["/c2", "Man"])];
    assert_eq!(resolve_labels(&with_noise).unwrap(), resolve_labels(&plain).unwrap());
}

#[test]
fn resolve_missing_man_fails() {
    let rows = vec![row(&["/c1", "Woman"]), row(&["/c0", "Cat"])];
    assert_eq!(resolve_labels(&rows), Err(BuildError::MissingLabel));
}

#[test]
fn resolve_missing_woman_fails() {
    let rows = vec![row(&["/c2", "Man"])];
    assert_eq!(resolve_labels(&rows), Err(BuildError::MissingLabel));
}

#[test]
fn resolve_short_row_fails() {
    let rows = vec![row(&["/c1"])];
    assert_eq!(resolve_labels(&rows), Err(BuildError::MalformedRow));
}

#[test]
fn url_index_maps_id_to_url() {
    let rows = vec![row(&["img1", "http://x/1"]), row(&["img2", "http://x/2"])];
    let idx = build_url_index(&rows).unwrap();
    assert_eq!(idx.lookup(&"img1".to_string()), Some("http://x/1".to_string()));
    assert_eq!(idx.lookup(&"img2".to_string()), Some("http://x/2".to_string()));
    assert_eq!(idx.lookup(&"img3".to_string()), None);
}

#[test]
fn url_index_duplicate_id_fails() {
    let rows = vec![row(&["img1", "http://x/1"]), row(&["img1", "http://x/2"])];
    assert_eq!(build_url_index(&rows).unwrap_err(), BuildError::DuplicateImageId);
}

#[test]
fn url_index_duplicate_id_fails_even_with_same_url() {
    let rows = vec![row(&["img1", "http://x/1"]), row(&["img1", "http://x/1"])];
    assert_eq!(build_url_index(&rows).unwrap_err(), BuildError::DuplicateImageId);
}

#[test]
fn url_index_short_row_fails() {
    let rows = vec![row(&["img1"])];
    assert_eq!(build_url_index(&rows).unwrap_err(), BuildError::MalformedRow);
}

#[test]
fn members_split_by_code() {
    let rows = vec![
        row(&["img1", "x", "/c1"]),
        row(&["img2", "x", "/c2"]),
        row(&["img3", "x", "/c9"]),
        row(&["img4", "x", "/c1"]),
    ];
    let (women, men) =
        build_members(&rows, &"/c1".to_string(), &"/c2".to_string()).unwrap();
    assert_eq!(women, vec!["img1".to_string(), "img4".to_string()]);
    assert_eq!(men, vec!["img2".to_string()]);
}

#[test]
fn members_short_row_fails() {
    let rows = vec![row(&["img1", "x"])];
    assert_eq!(
        build_members(&rows, &"/c1".to_string(), &"/c2".to_string()).unwrap_err(),
        BuildError::MalformedRow
    );
}

#[test]
fn dedup_keeps_first_occurrences() {
    let ids = vec![
        "a".to_string(),
        "b".to_string(),
        "a".to_string(),
        "c".to_string(),
        "b".to_string(),
    ];
    assert_eq!(dedup_ids(&ids), vec!["a".to_string(), "b".to_string(), "c".to_string()]);
}

#[test]
fn box_index_groups_regions_in_order() {
    let rows = vec![
        row(&["img1", "x", "/c1", "0.9", "0.0", "0.5", "0.0", "0.5"]),
        row(&["img2", "x", "/c2", "0.2", "0.1", "0.9", "0.1", "0.9"]),
        row(&["img1", "x", "/c2", "0.7", "0.25", "0.75", "0.25", "0.75"]),
    ];
    let idx = build_box_index(&rows, &"/c1".to_string(), &"/c2".to_string()).unwrap();
    let img1 = idx.lookup(&"img1".to_string()).unwrap();
    assert_eq!(img1.len(), 2);
    assert_eq!(img1[0].label, PersonLabel::Woman);
    assert_eq!(img1[0].confidence, 900000);
    assert_eq!(img1[0].x_min, 0);
    assert_eq!(img1[0].x_max, 500000);
    assert_eq!(img1[1].label, PersonLabel::Man);
    let img2 = idx.lookup(&"img2".to_string()).unwrap();
    assert_eq!(img2.len(), 1);
    assert_eq!(img2[0].confidence, 200000);
}

#[test]
fn box_index_discards_rows_with_other_labels() {
    let with_noise = vec![
        row(&["img1", "x", "/c1", "0.9", "0.0", "0.5", "0.0", "0.5"]),
        row(&["img1", "x", "/c9", "0.9", "0.0", "1.0", "0.0", "1.0"]),
        row(&["img9", "x", "/c8", "0.9", "0.0", "1.0", "0.0", "1.0"]),
    ];
    let plain = vec![row(&["img1", "x", "/c1", "0.9", "0.0", "0.5", "0.0", "0.5"])];
    let a = build_box_index(&with_noise, &"/c1".to_string(), &"/c2".to_string()).unwrap();
    let b = build_box_index(&plain, &"/c1".to_string(), &"/c2".to_string()).unwrap();
    assert_eq!(a.lookup(&"img1".to_string()), b.lookup(&"img1".to_string()));
    assert_eq!(a.lookup(&"img9".to_string()), None);
}

#[test]
fn box_index_short_discarded_row_is_not_malformed() {
    let rows = vec![row(&["img1", "x", "/c9"])];
    let idx = build_box_index(&rows, &"/c1".to_string(), &"/c2".to_string()).unwrap();
    assert_eq!(idx.lookup(&"img1".to_string()), None);
}

#[test]
fn box_index_bad_number_fails() {
    let rows = vec![row(&["img1", "x", "/c1", "high", "0.0", "0.5", "0.0", "0.5"])];
    assert_eq!(
        build_box_index(&rows, &"/c1".to_string(), &"/c2".to_string()).unwrap_err(),
        BuildError::MalformedRow
    );
}

#[test]
fn box_index_matching_short_row_fails() {
    let rows = vec![row(&["img1", "x", "/c1", "0.9", "0.0"])];
    assert_eq!(
        build_box_index(&rows, &"/c1".to_string(), &"/c2".to_string()).unwrap_err(),
        BuildError::MalformedRow
    );
}
