use vstd::prelude::*;
use crate::matrix::FeatureMatrix;
use crate::media::{Media, category_field, field_labels, label_views};
use crate::vocab::{
    build_vocabularies, distinct_labels, get_index_of, lemma_label_views_contains,
    lemma_label_views_index, lemma_vocab_distinct, lemma_vocab_exact, vocab,
};

verus! {

/// The five vocabularies of a collection, in the fixed category order.
pub open spec fn all_vocabs(records: Seq<Media>) -> Seq<Seq<Seq<char>>> {
    Seq::new(5, |c: int| vocab(records, c))
}

/// The label sequences of a vector of vocabularies.
pub open spec fn vocabs_view(vs: Seq<Vec<String>>) -> Seq<Seq<Seq<char>>> {
    vs.map_values(|v: Vec<String>| label_views(v@))
}

/// The starting column of category `c`: the summed sizes of the categories
/// before it. The offsets are fixed once per run by the vocabulary sizes.
pub open spec fn cat_offset(vs: Seq<Seq<Seq<char>>>, c: int) -> int
    decreases c,
{
    if c <= 0 {
        0
    } else {
        cat_offset(vs, c - 1) + vs[c - 1].len()
    }
}

/// The total feature width: the summed sizes of all five vocabularies.
pub open spec fn total_width(vs: Seq<Seq<Seq<char>>>) -> int {
    cat_offset(vs, 5)
}

/// The flag owed to record `m` at relative column `col` of the slice starting
/// at category `c`: walk the categories until `col` falls inside one, then ask
/// whether the record carries that category's label at that position.
pub open spec fn cell_from(m: Media, vs: Seq<Seq<Seq<char>>>, c: int, col: int) -> u8
    decreases 5 - c,
{
    if c >= 5 {
        0
    } else if 0 <= col < vs[c].len() {
        if field_labels(m, c).contains(vs[c][col]) {
            1
        } else {
            0
        }
    } else {
        cell_from(m, vs, c + 1, col - vs[c].len())
    }
}

/// The flag owed to record `m` at absolute column `col` of its row.
pub open spec fn cell_value(m: Media, vs: Seq<Seq<Seq<char>>>, col: int) -> u8 {
    cell_from(m, vs, 0, col)
}

/// What the encoder owes for a collection: the matrix has one row per record
/// and one column per vocabulary entry, each cell holds exactly the flag of
/// its record and column, the identifier list mirrors the records in input
/// order, and the returned genre vocabulary is the genre category's.
pub open spec fn is_encoding(
    records: Seq<Media>,
    matrix: Seq<Seq<u8>>,
    ids: Seq<u32>,
    genres: Seq<Seq<char>>,
) -> bool {
    let vs = all_vocabs(records);
    &&& matrix.len() == records.len()
    &&& (forall|r: int| 0 <= r < matrix.len() ==> (#[trigger] matrix[r]).len() == total_width(vs))
    &&& (forall|r: int, col: int|
        0 <= r < matrix.len() && 0 <= col < total_width(vs) ==> matrix[r][col] == cell_value(
            records[r],
            vs,
            col,
        ))
    &&& ids.len() == records.len()
    &&& (forall|i: int| 0 <= i < ids.len() ==> ids[i] == records[i].id)
    &&& genres == vocab(records, 0)
}

/// The column count of an encoding is the sum of the five vocabulary sizes.
pub proof fn lemma_total_width_sum(records: Seq<Media>)
    ensures
        total_width(all_vocabs(records)) == vocab(records, 0).len() + vocab(records, 1).len()
            + vocab(records, 2).len() + vocab(records, 3).len() + vocab(records, 4).len(),
{
    let vs = all_vocabs(records);
    reveal_with_fuel(cat_offset, 6);
    assert forall|c: int| 0 <= c < 5 implies vs[c] == vocab(records, c) by {}
}

pub proof fn lemma_cat_offset_monotone(vs: Seq<Seq<Seq<char>>>, c1: int, c2: int)
    requires
        0 <= c1 <= c2,
    ensures
        cat_offset(vs, c1) <= cat_offset(vs, c2),
    decreases c2 - c1,
{
    if c1 < c2 {
        lemma_cat_offset_monotone(vs, c1, c2 - 1);
    }
}

proof fn lemma_cell_from_skip(m: Media, vs: Seq<Seq<Seq<char>>>, k: int, c: int, j: int)
    requires
        vs.len() == 5,
        0 <= k <= c < 5,
        0 <= j < vs[c].len(),
    ensures
        cell_from(m, vs, k, cat_offset(vs, c) - cat_offset(vs, k) + j) == (if field_labels(
            m,
            c,
        ).contains(vs[c][j]) {
            1u8
        } else {
            0u8
        }),
    decreases c - k,
{
    let col = cat_offset(vs, c) - cat_offset(vs, k) + j;
    if k == c {
        assert(col == j);
    } else {
        lemma_cat_offset_monotone(vs, k + 1, c);
        assert(cat_offset(vs, k + 1) == cat_offset(vs, k) + vs[k].len());
        assert(col >= vs[k].len());
        lemma_cell_from_skip(m, vs, k + 1, c, j);
        assert(col - vs[k].len() == cat_offset(vs, c) - cat_offset(vs, k + 1) + j);
    }
}

/// The cell at category `c`'s offset plus index `j` is decided by whether the
/// record carries label `vs[c][j]` in that category, and by nothing else.
pub proof fn lemma_cell_at(m: Media, vs: Seq<Seq<Seq<char>>>, c: int, j: int)
    requires
        vs.len() == 5,
        0 <= c < 5,
        0 <= j < vs[c].len(),
    ensures
        cell_value(m, vs, cat_offset(vs, c) + j) == (if field_labels(m, c).contains(vs[c][j]) {
            1u8
        } else {
            0u8
        }),
{
    lemma_cell_from_skip(m, vs, 0, c, j);
}

/// Column `col` is the cell of index `j` within category `c`'s slice.
pub open spec fn col_in_category(vs: Seq<Seq<Seq<char>>>, c: int, j: int, col: int) -> bool {
    0 <= c < 5 && 0 <= j < vs[c].len() && col == cat_offset(vs, c) + j
}

proof fn lemma_col_to_category_from(vs: Seq<Seq<Seq<char>>>, k: int, col: int)
    requires
        vs.len() == 5,
        0 <= k <= 5,
        cat_offset(vs, k) <= col < total_width(vs),
    ensures
        exists|c: int, j: int| #[trigger] col_in_category(vs, c, j, col) && k <= c,
    decreases 5 - k,
{
    if k >= 5 {
        assert(false);
    } else if col < cat_offset(vs, k + 1) {
        let j = col - cat_offset(vs, k);
        assert(col_in_category(vs, k, j, col) && k <= k);
    } else {
        lemma_col_to_category_from(vs, k + 1, col);
        let (c, j): (int, int) = choose|c: int, j: int|
            #[trigger] col_in_category(vs, c, j, col) && k + 1 <= c;
        assert(col_in_category(vs, c, j, col) && k <= c);
    }
}

/// Every in-range column lies in exactly one category's slice: it is that
/// category's offset plus a valid index into that category's vocabulary.
pub proof fn lemma_column_decomposition(records: Seq<Media>, col: int)
    requires
        0 <= col < total_width(all_vocabs(records)),
    ensures
        exists|c: int, j: int| #[trigger] col_in_category(all_vocabs(records), c, j, col),
{
    let vs = all_vocabs(records);
    lemma_col_to_category_from(vs, 0, col);
    let (c, j): (int, int) = choose|c: int, j: int| #[trigger] col_in_category(vs, c, j, col) && 0
        <= c;
    assert(col_in_category(vs, c, j, col));
}

/// Phase two, for one record: raise the flag of every label in every one of
/// the record's five fields, in row `row`, using the fixed category offsets
/// derived once from the vocabulary sizes. The vocabularies must have been
/// built from a collection holding this record, so every label is found; a
/// label missing from its vocabulary would be an internal-invariant breach
/// and is ruled out by the contract.
pub fn encode_row(m: &mut FeatureMatrix, row: usize, media: &Media, vocabs: &Vec<Vec<String>>)
    requires
        old(m).well_formed(),
        row < old(m)@.len(),
        vocabs@.len() == 5,
        old(m).cols == total_width(vocabs_view(vocabs@)),
        forall|c: int| 0 <= c < 5 ==> distinct_labels(#[trigger] vocabs_view(vocabs@)[c]),
        forall|c: int, x: Seq<char>|
            0 <= c < 5 && #[trigger] field_labels(*media, c).contains(x) ==> vocabs_view(
                vocabs@,
            )[c].contains(x),
        forall|col: int| 0 <= col < old(m).cols ==> old(m)@[row as int][col] == 0,
    ensures
        final(m).well_formed(),
        final(m).cols == old(m).cols,
        final(m)@.len() == old(m)@.len(),
        forall|r: int| 0 <= r < old(m)@.len() && r != row ==> final(m)@[r] == old(m)@[r],
        forall|col: int|
            0 <= col < old(m).cols ==> final(m)@[row as int][col] == cell_value(
                *media,
                vocabs_view(vocabs@),
                col,
            ),
{
    let ghost vs = vocabs_view(vocabs@);
    let mut offset: usize = 0;
    let mut c: usize = 0;
    while c < 5
        invariant
            c <= 5,
            vocabs@.len() == 5,
            vs == vocabs_view(vocabs@),
            m.well_formed(),
            m.cols == old(m).cols,
            m@.len() == old(m)@.len(),
            row < m@.len(),
            m.cols == total_width(vs),
            forall|cc: int| 0 <= cc < 5 ==> distinct_labels(#[trigger] vs[cc]),
            forall|cc: int, x: Seq<char>|
                0 <= cc < 5 && #[trigger] field_labels(*media, cc).contains(x) ==> vs[cc].contains(
                    x,
                ),
            offset as int == cat_offset(vs, c as int),
            forall|r: int| 0 <= r < old(m)@.len() && r != row ==> m@[r] == old(m)@[r],
            forall|col: int|
                0 <= col < cat_offset(vs, c as int) ==> m@[row as int][col] == cell_value(
                    *media,
                    vs,
                    col,
                ),
            forall|col: int|
                cat_offset(vs, c as int) <= col < m.cols ==> m@[row as int][col] == 0,
        decreases 5 - c,
    {
        let field = category_field(media, c);
        let ghost lv = field_labels(*media, c as int);
        proof {
            lemma_label_views_index(field@);
            lemma_label_views_index(vocabs@[c as int]@);
            assert(vs[c as int] == label_views(vocabs@[c as int]@));
            assert(cat_offset(vs, c as int + 1) == cat_offset(vs, c as int) + vs[c as int].len());
            lemma_cat_offset_monotone(vs, c as int + 1, 5);
        }
        let ghost off_c = cat_offset(vs, c as int);
        let mut k: usize = 0;
        while k < field.len()
            invariant
                k <= field@.len(),
                c < 5,
                vocabs@.len() == 5,
                vs == vocabs_view(vocabs@),
                lv == field_labels(*media, c as int),
                label_views(field@) == lv,
                lv.len() == field@.len(),
                forall|t: int| 0 <= t < field@.len() ==> lv[t] == field@[t]@,
                vs[c as int] == label_views(vocabs@[c as int]@),
                distinct_labels(vs[c as int]),
                forall|x: Seq<char>| lv.contains(x) ==> vs[c as int].contains(x),
                m.well_formed(),
                m.cols == old(m).cols,
                m@.len() == old(m)@.len(),
                row < m@.len(),
                m.cols == total_width(vs),
                off_c == cat_offset(vs, c as int),
                offset as int == off_c,
                off_c + vs[c as int].len() == cat_offset(vs, c as int + 1),
                cat_offset(vs, c as int + 1) <= m.cols,
                forall|r: int| 0 <= r < old(m)@.len() && r != row ==> m@[r] == old(m)@[r],
                forall|col: int|
                    0 <= col < off_c ==> m@[row as int][col] == cell_value(*media, vs, col),
                forall|j: int|
                    0 <= j < vs[c as int].len() ==> m@[row as int][off_c + j] == (if lv.take(
                        k as int,
                    ).contains(vs[c as int][j]) {
                        1u8
                    } else {
                        0u8
                    }),
                forall|col: int|
                    cat_offset(vs, c as int + 1) <= col < m.cols ==> m@[row as int][col] == 0,
            decreases field@.len() - k,
        {
            let label = &field[k];
            let found = get_index_of(&vocabs[c], label);
            proof {
                assert(lv.contains(lv[k as int]));
                assert(vs[c as int].contains(lv[k as int]));
                lemma_label_views_contains(vocabs@[c as int]@, label@);
                assert(label@ == lv[k as int]);
            }
            match found {
                Some(idx) => {
                    proof {
                        assert(vs[c as int][idx as int] == vocabs@[c as int]@[idx as int]@);
                        assert(vs[c as int][idx as int] == lv[k as int]);
                        assert(off_c + idx < cat_offset(vs, c as int + 1));
                        assert((offset as int + idx as int) < (m.cols as int));
                    }
                    let ghost before = m@;
                    m.set_one(row, offset + idx);
                    proof {
                        broadcast use vstd::seq_lib::lemma_seq_contains_after_push;

                        lv.lemma_take_succ_push(k as int);
                        assert(lv.take(k as int + 1) == lv.take(k as int).push(lv[k as int]));
                        assert forall|j: int|
                            0 <= j < vs[c as int].len() implies m@[row as int][off_c + j] == (
                        if lv.take(k as int + 1).contains(vs[c as int][j]) {
                            1u8
                        } else {
                            0u8
                        }) by {
                            if j == idx as int {
                                assert(m@[row as int][off_c + j] == 1u8);
                                assert(lv.take(k as int + 1).contains(lv[k as int]));
                            } else {
                                assert(vs[c as int][j] != vs[c as int][idx as int]);
                                assert(m@[row as int][off_c + j] == before[row as int][off_c + j]);
                            }
                        }
                        assert forall|i2: int|
                            0 <= i2 < m@.len() implies (#[trigger] m@[i2]).len() == m.cols by {
                            assert(before[i2].len() == m.cols);
                        }
                    }
                },
                None => {
                    proof {
                        assert(false);
                    }
                },
            }
            k = k + 1;
        }
        proof {
            lv.lemma_take_len();
            assert(lv.take(lv.len() as int) == lv);
            assert forall|col: int|
                0 <= col < cat_offset(vs, c as int + 1) implies m@[row as int][col] == cell_value(
                *media,
                vs,
                col,
            ) by {
                if off_c <= col {
                    let j = col - off_c;
                    lemma_cell_at(*media, vs, c as int, j);
                }
            }
        }
        offset = offset + vocabs[c].len();
        c = c + 1;
    }
}

proof fn lemma_vocabs_view_all(records: Seq<Media>, vocabs: Seq<Vec<String>>)
    requires
        vocabs.len() == 5,
        forall|c: int| 0 <= c < 5 ==> label_views(#[trigger] vocabs[c]@) == vocab(records, c),
    ensures
        vocabs_view(vocabs) == all_vocabs(records),
{
    assert forall|c: int| 0 <= c < 5 implies vocabs_view(vocabs)[c] == all_vocabs(records)[c] by {
        assert(vocabs_view(vocabs)[c] == label_views(vocabs[c]@));
        assert(all_vocabs(records)[c] == vocab(records, c));
    }
    assert(vocabs_view(vocabs) =~= all_vocabs(records));
}

/// The total feature width of the five built vocabularies, or `None` where it
/// would not fit in `usize`.
pub fn checked_total_width(vocabs: &Vec<Vec<String>>) -> (r: Option<usize>)
    requires
        vocabs@.len() == 5,
    ensures
        match r {
            Some(w) => w as int == total_width(vocabs_view(vocabs@)),
            None => total_width(vocabs_view(vocabs@)) > usize::MAX as int,
        },
{
    let ghost vs = vocabs_view(vocabs@);
    let mut w: usize = 0;
    let mut c: usize = 0;
    while c < 5
        invariant
            c <= 5,
            vocabs@.len() == 5,
            vs == vocabs_view(vocabs@),
            w as int == cat_offset(vs, c as int),
        decreases 5 - c,
    {
        let len = vocabs[c].len();
        proof {
            lemma_label_views_index(vocabs@[c as int]@);
            assert(vs[c as int] == label_views(vocabs@[c as int]@));
            assert(len as int == vs[c as int].len());
        }
        match w.checked_add(len) {
            Some(nw) => {
                w = nw;
            },
            None => {
                proof {
                    assert(cat_offset(vs, c as int + 1) > usize::MAX as int);
                    lemma_cat_offset_monotone(vs, c as int + 1, 5);
                }
                return None;
            },
        }
        c = c + 1;
    }
    Some(w)
}

/// Run the whole encoder over a collection: build the five vocabularies once,
/// then fill one matrix row per record. Returns the multi-hot feature matrix,
/// the record identifiers in input order, and the genre vocabulary in its
/// index order. The one precondition is the machine limit that the total
/// feature width fit in `usize`; `try_generate_feature_vectors` checks it at
/// run time instead.
pub fn generate_feature_vectors(media_list: &Vec<Media>) -> (res: (
    FeatureMatrix,
    Vec<u32>,
    Vec<String>,
))
    requires
        total_width(all_vocabs(media_list@)) <= usize::MAX as int,
    ensures
        res.0.well_formed(),
        res.0.cols == total_width(all_vocabs(media_list@)),
        is_encoding(media_list@, res.0@, res.1@, label_views(res.2@)),
{
    let ghost vs = all_vocabs(media_list@);
    let mut vocabs = build_vocabularies(media_list);
    proof {
        lemma_vocabs_view_all(media_list@, vocabs@);
        assert forall|c: int| 0 <= c < 5 implies distinct_labels(#[trigger] vs[c]) by {
            lemma_vocab_distinct(media_list@, c);
            assert(vs[c] == vocab(media_list@, c));
        }
    }
    let width = match checked_total_width(&vocabs) {
        Some(w) => w,
        None => {
            proof {
                assert(false);
            }
            0
        },
    };
    let mut m = FeatureMatrix::zeros(media_list.len(), width);
    let mut ids: Vec<u32> = Vec::new();
    let mut i: usize = 0;
    while i < media_list.len()
        invariant
            i <= media_list@.len(),
            vs == all_vocabs(media_list@),
            vocabs@.len() == 5,
            vocabs_view(vocabs@) == vs,
            forall|c: int| 0 <= c < 5 ==> distinct_labels(#[trigger] vs[c]),
            m.well_formed(),
            m.cols == width,
            width as int == total_width(vs),
            m@.len() == media_list@.len(),
            ids@.len() == i,
            forall|k: int| 0 <= k < i ==> ids@[k] == media_list@[k].id,
            forall|r: int, col: int|
                0 <= r < i && 0 <= col < width ==> m@[r][col] == cell_value(media_list@[r], vs, col),
            forall|r: int, col: int|
                i <= r < media_list@.len() && 0 <= col < width ==> m@[r][col] == 0,
        decreases media_list@.len() - i,
    {
        let media = &media_list[i];
        ids.push(media.id);
        proof {
            assert forall|c: int, x: Seq<char>|
                0 <= c < 5 && #[trigger] field_labels(media_list@[i as int], c).contains(
                    x,
                ) implies vs[c].contains(x) by {
                lemma_vocab_exact(media_list@, c);
                assert(field_labels(media_list@[i as int], c).contains(x));
                assert(vocab(media_list@, c).contains(x));
                assert(vs[c] == vocab(media_list@, c));
            }
        }
        encode_row(&mut m, i, media, &vocabs);
        i = i + 1;
    }
    let genres = vocabs.remove(0);
    proof {
        assert(label_views(genres@) == vs[0]);
        assert(vs[0] == vocab(media_list@, 0));
    }
    (m, ids, genres)
}

/// Like `generate_feature_vectors`, but checks the machine limit itself:
/// `None` exactly where the total feature width would overflow `usize`, the
/// encoded outputs otherwise.
pub fn try_generate_feature_vectors(media_list: &Vec<Media>) -> (res: Option<
    (FeatureMatrix, Vec<u32>, Vec<String>),
>)
    ensures
        res is Some <==> total_width(all_vocabs(media_list@)) <= usize::MAX as int,
        match res {
            Some(t) => t.0.well_formed() && t.0.cols == total_width(all_vocabs(media_list@))
                && is_encoding(media_list@, t.0@, t.1@, label_views(t.2@)),
            None => true,
        },
{
    let vocabs = build_vocabularies(media_list);
    proof {
        lemma_vocabs_view_all(media_list@, vocabs@);
    }
    match checked_total_width(&vocabs) {
        Some(_) => Some(generate_feature_vectors(media_list)),
        None => None,
    }
}

/// Every label a record carries raises exactly its own flag: the cell at the
/// label's category offset plus its vocabulary index holds 1.
pub proof fn lemma_present_label_cell(records: Seq<Media>, i: int, c: int, j: int)
    requires
        0 <= i < records.len(),
        0 <= c < 5,
        0 <= j < vocab(records, c).len(),
        field_labels(records[i], c).contains(vocab(records, c)[j]),
    ensures
        cell_value(records[i], all_vocabs(records), cat_offset(all_vocabs(records), c) + j) == 1,
{
    let vs = all_vocabs(records);
    assert(vs[c] == vocab(records, c));
    lemma_cell_at(records[i], vs, c, j);
}

/// A cell not claimed by its row's record stays 0: where the record does not
/// carry the label of the cell's column, the cell holds 0. Together with
/// `lemma_column_decomposition` this covers every in-range cell not covered
/// by `lemma_present_label_cell`.
pub proof fn lemma_absent_label_cell(records: Seq<Media>, i: int, c: int, j: int)
    requires
        0 <= i < records.len(),
        0 <= c < 5,
        0 <= j < vocab(records, c).len(),
        !field_labels(records[i], c).contains(vocab(records, c)[j]),
    ensures
        cell_value(records[i], all_vocabs(records), cat_offset(all_vocabs(records), c) + j) == 0,
{
    let vs = all_vocabs(records);
    assert(vs[c] == vocab(records, c));
    lemma_cell_at(records[i], vs, c, j);
}

/// Idempotence: the encoding is a function of the input collection alone, so
/// any two outputs that satisfy `is_encoding` for the same collection are
/// identical — matrix, identifier list and genre vocabulary alike.
pub proof fn lemma_encoding_deterministic(
    records: Seq<Media>,
    m1: Seq<Seq<u8>>,
    ids1: Seq<u32>,
    g1: Seq<Seq<char>>,
    m2: Seq<Seq<u8>>,
    ids2: Seq<u32>,
    g2: Seq<Seq<char>>,
)
    requires
        is_encoding(records, m1, ids1, g1),
        is_encoding(records, m2, ids2, g2),
    ensures
        m1 == m2,
        ids1 == ids2,
        g1 == g2,
{
    assert forall|r: int| 0 <= r < m1.len() implies m1[r] == m2[r] by {
        assert(m1[r] =~= m2[r]);
    }
    assert(m1 =~= m2);
    assert(ids1 =~= ids2);
}

proof fn lemma_cell_from_empty(m: Media, vs: Seq<Seq<Seq<char>>>, c: int, col: int)
    requires
        forall|cc: int| 0 <= cc < 5 ==> field_labels(m, cc).len() == 0,
    ensures
        cell_from(m, vs, c, col) == 0,
    decreases 5 - c,
{
    if c >= 5 {
    } else if 0 <= col < vs[c].len() {
        if 0 <= c {
            assert(field_labels(m, c).len() == 0);
        }
    } else {
        lemma_cell_from_empty(m, vs, c + 1, col - vs[c].len());
    }
}

/// Boundary: a record whose five categorical fields are all empty owes an
/// all-zero row, whatever columns the rest of the collection contributes. If
/// it is the only record, the vocabularies — and with them the column space —
/// are empty as well.
pub proof fn lemma_empty_record_row_zero(records: Seq<Media>, i: int, col: int)
    requires
        0 <= i < records.len(),
        forall|c: int| 0 <= c < 5 ==> field_labels(records[i], c).len() == 0,
    ensures
        cell_value(records[i], all_vocabs(records), col) == 0,
{
    lemma_cell_from_empty(records[i], all_vocabs(records), 0, col);
}

} // verus!
