//! One feed entry and the parser for its tab-separated record.
use vstd::prelude::*;
use crate::text::{split_on, split_str};

verus! {

/// The smallest number of tab-separated fields a usable record has.
pub const MIN_FIELDS: usize = 7;

/// The abstract value of an [`Item`].
pub struct ItemModel {
    pub title: Seq<char>,
    pub link: Seq<char>,
    pub content: Seq<char>,
}

/// One feed entry: what is shown, and the link that identifies it.
pub struct Item {
    title: String,
    link: String,
    content: String,
}

impl View for Item {
    type V = ItemModel;

    closed spec fn view(&self) -> ItemModel {
        ItemModel { title: self.title@, link: self.link@, content: self.content@ }
    }
}

/// The fields of a record line.
pub open spec fn record_fields(line: Seq<char>) -> Seq<Seq<char>> {
    split_on(line, '\t')
}

/// The entry a record line describes, if it has enough fields.
///
/// The record is `id, title, link, content, _, _, author, ...`. The title shown
/// is the author field; the nominal title field is read past.
pub open spec fn parse_record(line: Seq<char>) -> Option<ItemModel> {
    let f = record_fields(line);
    if f.len() < MIN_FIELDS {
        None
    } else {
        Some(ItemModel { title: f[6], link: f[2], content: f[3] })
    }
}

impl Item {
    pub fn new(title: String, link: String, content: String) -> (r: Item)
        ensures
            r@ == (ItemModel { title: title@, link: link@, content: content@ }),
    {
        Item { title, link, content }
    }

    pub fn title(&self) -> (r: &str)
        ensures
            r@ == self@.title,
    {
        self.title.as_str()
    }

    pub fn link(&self) -> (r: &str)
        ensures
            r@ == self@.link,
    {
        self.link.as_str()
    }

    pub fn content(&self) -> (r: &str)
        ensures
            r@ == self@.content,
    {
        self.content.as_str()
    }

    /// Parses one record line; fails when it has fewer than seven fields.
    pub fn parse_from_line(line: &str) -> (r: Result<Item, String>)
        ensures
            match r {
                Ok(item) => parse_record(line@) == Some(item@),
                Err(msg) => parse_record(line@) is None && msg@ == "Not enough fields"@,
            },
    {
        let fields = split_str(line, '\t');
        if fields.len() < MIN_FIELDS {
            return Err(String::from_str("Not enough fields"));
        }
        let ghost f = fields@.map_values(|s: String| s@);
        assert(f[2] == fields@[2]@ && f[3] == fields@[3]@ && f[6] == fields@[6]@);
        let link = fields[2].clone();
        let content = fields[3].clone();
        let author = fields[6].clone();
        Ok(Item { title: author, link, content })
    }
}

/// Parsing depends on the characters of the line alone, and succeeds on every
/// line of at least seven fields, taking the shown title from the seventh.
pub proof fn lemma_parse_total_deterministic(a: Seq<char>, b: Seq<char>)
    requires
        a == b,
        record_fields(a).len() >= MIN_FIELDS,
    ensures
        parse_record(a) == parse_record(b),
        parse_record(a) is Some,
        parse_record(a)->Some_0.title == record_fields(a)[6],
        parse_record(a)->Some_0.link == record_fields(a)[2],
        parse_record(a)->Some_0.content == record_fields(a)[3],
{
}

/// A line with fewer than seven fields gives no entry.
pub proof fn lemma_short_record_rejected(line: Seq<char>)
    requires
        record_fields(line).len() < MIN_FIELDS,
    ensures
        parse_record(line) is None,
{
}

} // verus!
