use recommendation::encoder::{generate_feature_vectors, try_generate_feature_vectors};
use recommendation::matrix::FeatureMatrix;
use recommendation::media::Media;
use recommendation::vocab::{build_vocabularies, get_index_of};

fn strings(labels: &[&str]) -> Vec<String> {
    labels.iter().map(|l| l.to_string()).collect()
}

fn rec(
    id: u32,
    genres: &[&str],
    people: &[&str],
    influences: &[&str],
    countries: &[&str],
    languages: &[&str],
) -> Media {
    Media {
        id,
        media_type: "film".to_string(),
        title: format!("title-{}", id),
        genres: strings(genres),
        year: 2000,
        people: strings(people),
        influences: strings(influences),
        countries: strings(countries),
        languages: strings(languages),
        length: 90,
    }
}

fn row(m: &FeatureMatrix, r: usize) -> Vec<u8> {
    (0..m.column_count()).map(|c| m.entry(r, c)).collect()
}

#[test]
fn empty_collection() {
    let media: Vec<Media> = Vec::new();
    let (matrix, ids, genres) = generate_feature_vectors(&media);
    assert_eq!(matrix.row_count(), 0);
    assert_eq!(matrix.column_count(), 0);
    assert!(ids.is_empty());
    assert!(genres.is_empty());
}

#[test]
fn single_record_all_empty_fields() {
    let media = vec![rec(7, &[], &[], &[], &[], &[])];
    let (matrix, ids, genres) = generate_feature_vectors(&media);
    assert_eq!(matrix.row_count(), 1);
    assert_eq!(matrix.column_count(), 0);
    assert_eq!(ids, vec![7]);
    assert!(genres.is_empty());
}

#[test]
fn empty_record_among_others_has_zero_row() {
    let media = vec![
        rec(1, &[], &[], &[], &[], &[]),
        rec(2, &["drama"], &["someone"], &[], &["jp"], &["ja"]),
    ];
    let (matrix, _ids, _genres) = generate_feature_vectors(&media);
    assert_eq!(matrix.row_count(), 2);
    assert_eq!(matrix.column_count(), 4);
    assert_eq!(row(&matrix, 0), vec![0, 0, 0, 0]);
    assert_eq!(row(&matrix, 1), vec![1, 1, 1, 1]);
}

#[test]
fn two_records_sharing_a_genre() {
    let media = vec![
        rec(10, &["drama"], &[], &[], &[], &[]),
        rec(11, &["drama", "comedy"], &[], &[], &[], &[]),
    ];
    let (matrix, ids, genres) = generate_feature_vectors(&media);
    assert_eq!(genres.len(), 2);
    assert_eq!(genres, strings(&["drama", "comedy"]));
    assert_eq!(matrix.row_count(), 2);
    assert_eq!(matrix.column_count(), 2);
    // record A: exactly one flag, at "drama"'s index
    assert_eq!(row(&matrix, 0), vec![1, 0]);
    // record B: one flag per label
    assert_eq!(row(&matrix, 1), vec![1, 1]);
    assert_eq!(ids, vec![10, 11]);
}

#[test]
fn single_occurrence_label_is_kept() {
    let media = vec![
        rec(1, &["drama"], &[], &[], &[], &[]),
        rec(2, &["drama"], &[], &[], &["nowhere-else"], &[]),
    ];
    let (matrix, _ids, _genres) = generate_feature_vectors(&media);
    let vocabs = build_vocabularies(&media);
    // the label occurring in one record only still gets a vocabulary entry...
    let countries = &vocabs[3];
    assert_eq!(countries.len(), 1);
    assert_eq!(get_index_of(countries, &"nowhere-else".to_string()), Some(0));
    // ...and the corresponding flag in that record's row: columns are
    // [genres: drama][countries: nowhere-else]
    assert_eq!(matrix.column_count(), 2);
    assert_eq!(row(&matrix, 0), vec![1, 0]);
    assert_eq!(row(&matrix, 1), vec![1, 1]);
}

#[test]
fn identifier_list_preserves_input_order() {
    let media = vec![
        rec(42, &["a"], &[], &[], &[], &[]),
        rec(3, &[], &["b"], &[], &[], &[]),
        rec(42, &[], &[], &[], &[], &["c"]),
        rec(0, &[], &[], &[], &[], &[]),
    ];
    let (_matrix, ids, _genres) = generate_feature_vectors(&media);
    assert_eq!(ids, vec![42, 3, 42, 0]);
}

#[test]
fn encoding_twice_gives_identical_output() {
    let media = vec![
        rec(1, &["drama", "noir"], &["ann"], &["kafka"], &["de", "fr"], &["de"]),
        rec(2, &["noir"], &["ann", "bob"], &[], &["fr"], &["fr", "de"]),
    ];
    let (m1, ids1, g1) = generate_feature_vectors(&media);
    let (m2, ids2, g2) = generate_feature_vectors(&media);
    assert_eq!(ids1, ids2);
    assert_eq!(g1, g2);
    assert_eq!(m1.row_count(), m2.row_count());
    assert_eq!(m1.column_count(), m2.column_count());
    for r in 0..m1.row_count() {
        assert_eq!(row(&m1, r), row(&m2, r));
    }
}

#[test]
fn categories_occupy_fixed_contiguous_slices() {
    // column space: genres [g1 g2] people [p1] influences [i1] countries [c1] languages [l1 l2]
    let media = vec![
        rec(1, &["g1"], &["p1"], &[], &["c1"], &["l1"]),
        rec(2, &["g2", "g1"], &[], &["i1"], &[], &["l2", "l1"]),
    ];
    let (matrix, ids, genres) = generate_feature_vectors(&media);
    assert_eq!(genres, strings(&["g1", "g2"]));
    assert_eq!(matrix.row_count(), 2);
    assert_eq!(matrix.column_count(), 7);
    assert_eq!(row(&matrix, 0), vec![1, 0, 1, 0, 1, 1, 0]);
    assert_eq!(row(&matrix, 1), vec![1, 1, 0, 1, 0, 1, 1]);
    assert_eq!(ids, vec![1, 2]);
}

#[test]
fn duplicate_labels_in_one_field_count_once() {
    let media = vec![rec(1, &["drama", "drama"], &[], &[], &[], &[])];
    let (matrix, _ids, genres) = generate_feature_vectors(&media);
    assert_eq!(genres, strings(&["drama"]));
    assert_eq!(matrix.column_count(), 1);
    assert_eq!(row(&matrix, 0), vec![1]);
}

#[test]
fn vocabulary_indices_are_stable_and_complete() {
    let media = vec![
        rec(1, &["x", "y"], &["p"], &[], &[], &[]),
        rec(2, &["z", "x"], &["q", "p"], &[], &[], &[]),
    ];
    let vocabs = build_vocabularies(&media);
    assert_eq!(vocabs.len(), 5);
    assert_eq!(vocabs[0], strings(&["x", "y", "z"]));
    assert_eq!(vocabs[1], strings(&["p", "q"]));
    assert!(vocabs[2].is_empty());
    assert!(vocabs[3].is_empty());
    assert!(vocabs[4].is_empty());
    assert_eq!(get_index_of(&vocabs[0], &"z".to_string()), Some(2));
    assert_eq!(get_index_of(&vocabs[0], &"missing".to_string()), None);
}

#[test]
fn try_generate_matches_generate() {
    let media = vec![rec(5, &["drama"], &[], &[], &[], &["en"])];
    let out = try_generate_feature_vectors(&media);
    assert!(out.is_some());
    let (matrix, ids, genres) = out.unwrap();
    assert_eq!(matrix.row_count(), 1);
    assert_eq!(matrix.column_count(), 2);
    assert_eq!(row(&matrix, 0), vec![1, 1]);
    assert_eq!(ids, vec![5]);
    assert_eq!(genres, strings(&["drama"]));
}
