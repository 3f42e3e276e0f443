use vstd::prelude::*;
use crate::media::{Media, category_field, field_labels, label_views};

verus! {

/// A label joins a vocabulary only if it is not already present; otherwise the
/// vocabulary is unchanged. This is the one step of vocabulary growth.
pub open spec fn insert_label(v: Seq<Seq<char>>, l: Seq<char>) -> Seq<Seq<char>> {
    if v.contains(l) {
        v
    } else {
        v.push(l)
    }
}

/// The vocabulary after absorbing the first `n` labels of `ls`, starting
/// from `v`, in order.
pub open spec fn extend_prefix(v: Seq<Seq<char>>, ls: Seq<Seq<char>>, n: int) -> Seq<Seq<char>>
    decreases n,
{
    if n <= 0 {
        v
    } else {
        insert_label(extend_prefix(v, ls, n - 1), ls[n - 1])
    }
}

/// The vocabulary after absorbing all labels of `ls`, in order.
pub open spec fn extend_labels(v: Seq<Seq<char>>, ls: Seq<Seq<char>>) -> Seq<Seq<char>> {
    extend_prefix(v, ls, ls.len() as int)
}

/// The vocabulary of category `c` over the first `n` records.
pub open spec fn vocab_prefix(records: Seq<Media>, c: int, n: int) -> Seq<Seq<char>>
    decreases n,
{
    if n <= 0 {
        Seq::empty()
    } else {
        extend_labels(vocab_prefix(records, c, n - 1), field_labels(records[n - 1], c))
    }
}

/// The vocabulary of category `c` over the whole collection: the distinct
/// labels observed in that category, in first-occurrence order. A label's
/// position in this sequence is its stable index within the category.
pub open spec fn vocab(records: Seq<Media>, c: int) -> Seq<Seq<char>> {
    vocab_prefix(records, c, records.len() as int)
}

/// No label occurs twice.
pub open spec fn distinct_labels(v: Seq<Seq<char>>) -> bool {
    forall|i: int, j: int| 0 <= i < j < v.len() ==> v[i] != v[j]
}

pub proof fn lemma_insert_label(v: Seq<Seq<char>>, l: Seq<char>)
    ensures
        forall|x: Seq<char>| #[trigger] insert_label(v, l).contains(x) <==> (v.contains(x) || x
            == l),
        distinct_labels(v) ==> distinct_labels(insert_label(v, l)),
        v.len() <= insert_label(v, l).len(),
        forall|i: int| 0 <= i < v.len() ==> insert_label(v, l)[i] == v[i],
{
    broadcast use vstd::seq_lib::lemma_seq_contains_after_push;

    if !v.contains(l) {
        if distinct_labels(v) {
            assert forall|i: int, j: int|
                0 <= i < j < insert_label(v, l).len() implies insert_label(v, l)[i] != insert_label(
                v,
                l,
            )[j] by {
                if j == v.len() {
                    if v[i] == l {
                        assert(v.contains(l));
                    }
                }
            }
        }
    }
}

pub proof fn lemma_extend_prefix(v: Seq<Seq<char>>, ls: Seq<Seq<char>>, n: int)
    requires
        0 <= n <= ls.len(),
    ensures
        forall|x: Seq<char>| #[trigger] extend_prefix(v, ls, n).contains(x) <==> (v.contains(x)
            || ls.take(n).contains(x)),
        distinct_labels(v) ==> distinct_labels(extend_prefix(v, ls, n)),
        v.len() <= extend_prefix(v, ls, n).len(),
        forall|i: int| 0 <= i < v.len() ==> extend_prefix(v, ls, n)[i] == v[i],
    decreases n,
{
    broadcast use vstd::seq_lib::lemma_seq_contains_after_push;

    if n <= 0 {
        assert(ls.take(n).len() == 0);
    } else {
        let prev = extend_prefix(v, ls, n - 1);
        lemma_extend_prefix(v, ls, n - 1);
        lemma_insert_label(prev, ls[n - 1]);
        ls.lemma_take_succ_push(n - 1);
        assert(ls.take(n) == ls.take(n - 1).push(ls[n - 1]));
    }
}

/// Every vocabulary holds each of its labels exactly once.
pub proof fn lemma_vocab_prefix(records: Seq<Media>, c: int, n: int)
    requires
        0 <= n <= records.len(),
    ensures
        distinct_labels(vocab_prefix(records, c, n)),
        forall|x: Seq<char>| #[trigger] vocab_prefix(records, c, n).contains(x) <==> (exists|i: int|
            0 <= i < n && #[trigger] field_labels(records[i], c).contains(x)),
    decreases n,
{
    if n <= 0 {
    } else {
        lemma_vocab_prefix(records, c, n - 1);
        let prev = vocab_prefix(records, c, n - 1);
        let ls = field_labels(records[n - 1], c);
        lemma_extend_prefix(prev, ls, ls.len() as int);
        ls.lemma_take_len();
        assert forall|x: Seq<char>| #[trigger] vocab_prefix(records, c, n).contains(x) implies (
        exists|i: int| 0 <= i < n && #[trigger] field_labels(records[i], c).contains(x)) by {
            if prev.contains(x) {
                let i = choose|i: int|
                    0 <= i < n - 1 && #[trigger] field_labels(records[i], c).contains(x);
                assert(0 <= i < n && field_labels(records[i], c).contains(x));
            } else {
                assert(field_labels(records[n - 1], c).contains(x));
            }
        }
        assert forall|x: Seq<char>|
            (exists|i: int| 0 <= i < n && #[trigger] field_labels(records[i], c).contains(
                x,
            )) implies #[trigger] vocab_prefix(records, c, n).contains(x) by {
            let i = choose|i: int| 0 <= i < n && field_labels(records[i], c).contains(x);
            if i < n - 1 {
                assert(prev.contains(x));
            }
        }
    }
}

/// Within one category no label is assigned two indices.
pub proof fn lemma_vocab_distinct(records: Seq<Media>, c: int)
    ensures
        distinct_labels(vocab(records, c)),
{
    lemma_vocab_prefix(records, c, records.len() as int);
}

/// A category's vocabulary covers exactly the labels observed in that category
/// anywhere in the collection: every referenced label — even one occurring in
/// a single record — gets an entry, and no unobserved label does.
pub proof fn lemma_vocab_exact(records: Seq<Media>, c: int)
    ensures
        forall|x: Seq<char>| #[trigger] vocab(records, c).contains(x) <==> (exists|i: int|
            0 <= i < records.len() && #[trigger] field_labels(records[i], c).contains(x)),
{
    lemma_vocab_prefix(records, c, records.len() as int);
}

pub proof fn lemma_label_views_index(v: Seq<String>)
    ensures
        label_views(v).len() == v.len(),
        forall|j: int| 0 <= j < v.len() ==> label_views(v)[j] == v[j]@,
{
}

pub proof fn lemma_label_views_contains(v: Seq<String>, l: Seq<char>)
    ensures
        label_views(v).contains(l) <==> (exists|j: int| 0 <= j < v.len() && v[j]@ == l),
{
    lemma_label_views_index(v);
    if label_views(v).contains(l) {
        let j = choose|j: int| 0 <= j < label_views(v).len() && label_views(v)[j] == l;
        assert(v[j]@ == l);
    }
    if exists|j: int| 0 <= j < v.len() && v[j]@ == l {
        let j = choose|j: int| 0 <= j < v.len() && v[j]@ == l;
        assert(label_views(v)[j] == l);
        assert(label_views(v).contains(l));
    }
}

/// The index assigned to `label` in `voc`: the position of its first (and,
/// for a built vocabulary, only) occurrence, scanning from the front.
pub fn get_index_of(voc: &Vec<String>, label: &String) -> (r: Option<usize>)
    ensures
        match r {
            Some(i) => i < voc@.len() && voc@[i as int]@ == label@ && (forall|j: int|
                0 <= j < i ==> voc@[j]@ != label@),
            None => forall|j: int| 0 <= j < voc@.len() ==> voc@[j]@ != label@,
        },
{
    let mut i: usize = 0;
    while i < voc.len()
        invariant
            i <= voc@.len(),
            forall|j: int| 0 <= j < i ==> voc@[j]@ != label@,
        decreases voc@.len() - i,
    {
        if voc[i].eq(label) {
            return Some(i);
        }
        i = i + 1;
    }
    None
}

/// Append to `voc` each label of `labels` that it does not yet hold, in order.
fn add_labels(voc: &mut Vec<String>, labels: &Vec<String>)
    ensures
        label_views(final(voc)@) == extend_labels(label_views(old(voc)@), label_views(labels@)),
{
    let ghost v0 = label_views(old(voc)@);
    let ghost lv = label_views(labels@);
    proof {
        lemma_label_views_index(labels@);
    }
    let mut k: usize = 0;
    while k < labels.len()
        invariant
            k <= labels@.len(),
            lv == label_views(labels@),
            lv.len() == labels@.len(),
            forall|j: int| 0 <= j < labels@.len() ==> lv[j] == labels@[j]@,
            label_views(voc@) == extend_prefix(v0, lv, k as int),
        decreases labels@.len() - k,
    {
        let ghost cur = label_views(voc@);
        let found = get_index_of(voc, &labels[k]);
        proof {
            lemma_label_views_contains(voc@, labels@[k as int]@);
        }
        match found {
            Some(i) => {
                proof {
                    assert(voc@[i as int]@ == labels@[k as int]@);
                    assert(cur.contains(lv[k as int]));
                    assert(insert_label(cur, lv[k as int]) == cur);
                }
            },
            None => {
                let l = labels[k].clone();
                voc.push(l);
                proof {
                    assert(!cur.contains(lv[k as int]));
                    broadcast use vstd::seq_lib::group_seq_properties;

                    assert(label_views(voc@) =~= cur.push(lv[k as int])) by {
                        lemma_label_views_index(voc@);
                    }
                }
            },
        }
        k = k + 1;
    }
}

/// Phase one of the encoder: derive the five vocabularies from the whole
/// collection. `vocabs[c]` lists the distinct labels of category `c` in
/// first-occurrence order; a label's position is its index within the
/// category's slice of the feature space.
pub fn build_vocabularies(media_list: &Vec<Media>) -> (vocabs: Vec<Vec<String>>)
    ensures
        vocabs@.len() == 5,
        forall|c: int| 0 <= c < 5 ==> label_views(#[trigger] vocabs@[c]@) == vocab(media_list@, c),
{
    let mut vocabs: Vec<Vec<String>> = Vec::new();
    let mut c: usize = 0;
    while c < 5
        invariant
            c <= 5,
            vocabs@.len() == c,
            forall|cc: int|
                0 <= cc < c ==> label_views(#[trigger] vocabs@[cc]@) == vocab(media_list@, cc),
        decreases 5 - c,
    {
        let mut voc: Vec<String> = Vec::new();
        let mut i: usize = 0;
        while i < media_list.len()
            invariant
                i <= media_list@.len(),
                c < 5,
                label_views(voc@) == vocab_prefix(media_list@, c as int, i as int),
            decreases media_list@.len() - i,
        {
            add_labels(&mut voc, category_field(&media_list[i], c));
            i = i + 1;
        }
        vocabs.push(voc);
        c = c + 1;
    }
    vocabs
}

} // verus!
