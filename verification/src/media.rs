use vstd::prelude::*;

verus! {

/// One catalogued media item. The five `Vec<String>` fields are the
/// multi-valued categorical attributes that drive the feature encoding; the
/// remaining fields are carried through unencoded.
pub struct Media {
    pub id: u32,
    pub media_type: String,
    pub title: String,
    pub genres: Vec<String>,
    pub year: u32,
    pub people: Vec<String>,
    pub influences: Vec<String>,
    pub countries: Vec<String>,
    pub languages: Vec<String>,
    pub length: u32,
}

/// The character sequences of a sequence of strings.
pub open spec fn label_views(v: Seq<String>) -> Seq<Seq<char>> {
    v.map_values(|s: String| s@)
}

/// The labels of one record in category `c`. The categories are numbered in
/// the fixed encoding order: genres, people, influences, countries, languages.
pub open spec fn field_labels(m: Media, c: int) -> Seq<Seq<char>> {
    if c == 0 {
        label_views(m.genres@)
    } else if c == 1 {
        label_views(m.people@)
    } else if c == 2 {
        label_views(m.influences@)
    } else if c == 3 {
        label_views(m.countries@)
    } else if c == 4 {
        label_views(m.languages@)
    } else {
        Seq::empty()
    }
}

/// The field of `m` holding category `c`, in the fixed encoding order.
pub fn category_field<'a>(m: &'a Media, c: usize) -> (r: &'a Vec<String>)
    requires
        c < 5,
    ensures
        label_views(r@) == field_labels(*m, c as int),
{
    if c == 0 {
        &m.genres
    } else if c == 1 {
        &m.people
    } else if c == 2 {
        &m.influences
    } else if c == 3 {
        &m.countries
    } else {
        &m.languages
    }
}

} // verus!
