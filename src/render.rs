//! HTML rendering of the entries that are left to show.
use vstd::prelude::*;
use vstd::std_specs::iter::IteratorSpec;
use crate::record::{Item, ItemModel};
use crate::text::push_char;

verus! {

/// What one character becomes in HTML text or attribute context.
pub open spec fn escape_char(c: char) -> Seq<char> {
    if c == '&' {
        "&amp;"@
    } else if c == '<' {
        "&lt;"@
    } else if c == '>' {
        "&gt;"@
    } else {
        seq![c]
    }
}

/// `s` with `&`, `<` and `>` replaced by their entities.
pub open spec fn escape_html(s: Seq<char>) -> Seq<char>
    decreases s.len(),
{
    if s.len() == 0 {
        Seq::<char>::empty()
    } else {
        escape_html(s.drop_last()) + escape_char(s.last())
    }
}

/// The characters that `char::is_whitespace` accepts (Unicode White_Space).
pub open spec fn is_space(c: char) -> bool {
    ||| '\t' <= c <= '\r'
    ||| c == ' '
    ||| c == '\u{85}'
    ||| c == '\u{a0}'
    ||| c == '\u{1680}'
    ||| '\u{2000}' <= c <= '\u{200a}'
    ||| c == '\u{2028}'
    ||| c == '\u{2029}'
    ||| c == '\u{202f}'
    ||| c == '\u{205f}'
    ||| c == '\u{3000}'
}

/// `s` without its leading white space.
pub open spec fn trim_start(s: Seq<char>) -> Seq<char>
    decreases s.len(),
{
    if s.len() > 0 && is_space(s[0]) {
        trim_start(s.drop_first())
    } else {
        s
    }
}

/// Content that is already markup: its first character after white space is `<`.
pub open spec fn is_markup(s: Seq<char>) -> bool {
    let t = trim_start(s);
    t.len() > 0 && t[0] == '<'
}

/// Content that stands for no content at all.
pub open spec fn is_missing(s: Seq<char>) -> bool {
    s.len() == 0 || s == "NULL"@
}

/// The block that shows an entry's content.
///
/// Only content whose first character after white space is `<` counts as
/// markup and stands verbatim. Other content is escaped and preformatted,
/// even where tags appear later in it (`Hello <b>world</b>` shows its tags
/// as text).
pub open spec fn content_block(s: Seq<char>) -> Seq<char> {
    if is_missing(s) {
        "(no content)"@
    } else if is_markup(s) {
        s
    } else {
        "<pre>"@ + escape_html(s) + "</pre>"@
    }
}

/// The heading, content and rule of one entry.
pub open spec fn item_html(it: ItemModel) -> Seq<char> {
    "<h3><a href=\""@ + escape_html(it.link) + "\">"@ + escape_html(it.title) + "</a></h3>\n"@
        + content_block(it.content) + "\n<hr>\n"@
}

/// The blocks of all entries, in order.
pub open spec fn items_html(items: Seq<ItemModel>) -> Seq<char>
    decreases items.len(),
{
    if items.len() == 0 {
        Seq::<char>::empty()
    } else {
        items_html(items.drop_last()) + item_html(items.last())
    }
}

pub open spec fn document_head() -> Seq<char> {
    "<!DOCTYPE html>\n<meta charset=\"utf-8\">\n<title>Unread sfeed items</title>\n<body style=\"max-width:900px; margin:2rem auto\">\n"@
}

pub open spec fn document_tail() -> Seq<char> {
    "</body></html>\n"@
}

/// The whole page for a sequence of entries.
pub open spec fn document(items: Seq<ItemModel>) -> Seq<char> {
    document_head() + items_html(items) + document_tail()
}

/// The block of an entry's content depends on the content alone: a
/// placeholder for empty or `NULL`, the content itself when it starts with
/// `<` after white space, else the escaped text preformatted.
pub proof fn lemma_content_selection(s: Seq<char>)
    ensures
        s.len() == 0 ==> content_block(s) == "(no content)"@,
        s == "NULL"@ ==> content_block(s) == "(no content)"@,
        !is_missing(s) && is_markup(s) ==> content_block(s) == s,
        !is_missing(s) && !is_markup(s) ==> content_block(s) == "<pre>"@ + escape_html(s)
            + "</pre>"@,
{
}

/// Escaped text holds no `<` or `>`: it cannot open or close markup.
pub proof fn lemma_escaped_has_no_brackets(s: Seq<char>)
    ensures
        !escape_html(s).contains('<'),
        !escape_html(s).contains('>'),
    decreases s.len(),
{
    reveal_strlit("&amp;");
    reveal_strlit("&lt;");
    reveal_strlit("&gt;");
    if s.len() > 0 {
        lemma_escaped_has_no_brackets(s.drop_last());
        let p = escape_html(s.drop_last());
        let e = escape_char(s.last());
        assert(!e.contains('<') && !e.contains('>'));
        assert forall|j: int| 0 <= j < (p + e).len() implies (p + e)[j] != '<' && (p + e)[j]
            != '>' by {
            if j < p.len() {
                assert((p + e)[j] == p[j]);
            } else {
                assert((p + e)[j] == e[j - p.len()]);
            }
        }
    }
}

/// In an entry's block the link and the title are escaped once, and content
/// that is markup stands unescaped.
pub proof fn lemma_escaped_once(it: ItemModel)
    ensures
        item_html(it) == "<h3><a href=\""@ + escape_html(it.link) + "\">"@ + escape_html(it.title)
            + "</a></h3>\n"@ + content_block(it.content) + "\n<hr>\n"@,
        !is_missing(it.content) && is_markup(it.content) ==> content_block(it.content)
            == it.content,
        !escape_html(it.link).contains('<') && !escape_html(it.link).contains('>'),
        !escape_html(it.title).contains('<') && !escape_html(it.title).contains('>'),
{
    lemma_escaped_has_no_brackets(it.link);
    lemma_escaped_has_no_brackets(it.title);
}

pub open spec fn models(items: Seq<Item>) -> Seq<ItemModel> {
    items.map_values(|i: Item| i@)
}

/// Appends `s` to `out` with `&`, `<` and `>` replaced by their entities.
pub fn push_escaped(out: &mut String, s: &str)
    ensures
        final(out)@ == old(out)@ + escape_html(s@),
{
    let mut it = s.chars();
    let ghost mut i: int = 0;
    let ghost start = out@;
    loop
        invariant
            0 <= i <= s@.len(),
            it.remaining() == s@.subrange(i, s@.len() as int),
            out@ == start + escape_html(s@.subrange(0, i)),
        ensures
            i == s@.len(),
            out@ == start + escape_html(s@.subrange(0, i)),
        decreases s@.len() - i,
    {
        match it.next() {
            None => {
                break;
            },
            Some(c) => {
                assert(s@.subrange(0, i + 1).drop_last() == s@.subrange(0, i));
                if c == '&' {
                    out.append("&amp;");
                } else if c == '<' {
                    out.append("&lt;");
                } else if c == '>' {
                    out.append("&gt;");
                } else {
                    push_char(out, c);
                }
                proof {
                    i = i + 1;
                }
                assert(out@ =~= start + escape_html(s@.subrange(0, i)));
            },
        }
    }
    assert(s@.subrange(0, i) == s@);
}

/// `s` with `&`, `<` and `>` replaced by their entities.
pub fn escape(s: &str) -> (r: String)
    ensures
        r@ == escape_html(s@),
{
    let mut out = String::new();
    push_escaped(&mut out, s);
    assert(out@ =~= escape_html(s@));
    out
}

/// Whether `c` is white space.
pub fn is_space_char(c: char) -> (r: bool)
    ensures
        r == is_space(c),
{
    ('\t' <= c && c <= '\r') || c == ' ' || c == '\u{85}' || c == '\u{a0}' || c == '\u{1680}'
        || ('\u{2000}' <= c && c <= '\u{200a}') || c == '\u{2028}' || c == '\u{2029}'
        || c == '\u{202f}' || c == '\u{205f}' || c == '\u{3000}'
}

proof fn lemma_trim_start_skip(s: Seq<char>, i: int)
    requires
        0 <= i < s.len(),
        is_space(s[i]),
    ensures
        trim_start(s.subrange(i, s.len() as int)) == trim_start(s.subrange(i + 1, s.len() as int)),
{
    assert(s.subrange(i, s.len() as int).drop_first() == s.subrange(i + 1, s.len() as int));
}

/// Whether the content is already markup.
pub fn starts_with_markup(s: &str) -> (r: bool)
    ensures
        r == is_markup(s@),
{
    let mut it = s.chars();
    let ghost mut i: int = 0;
    loop
        invariant
            0 <= i <= s@.len(),
            it.remaining() == s@.subrange(i, s@.len() as int),
            trim_start(s@) == trim_start(s@.subrange(i, s@.len() as int)),
        decreases s@.len() - i,
    {
        match it.next() {
            None => {
                assert(s@.subrange(i, s@.len() as int).len() == 0);
                return false;
            },
            Some(c) => {
                if !is_space_char(c) {
                    return c == '<';
                }
                proof {
                    lemma_trim_start_skip(s@, i);
                    i = i + 1;
                }
            },
        }
    }
}

/// Whether the content is empty or the marker `NULL`.
pub fn is_missing_content(s: &str) -> (r: bool)
    ensures
        r == is_missing(s@),
{
    proof {
        reveal_strlit("NULL");
    }
    let n = s.unicode_len();
    if n == 0 {
        return true;
    }
    if n != 4 {
        return false;
    }
    let r = s.get_char(0) == 'N' && s.get_char(1) == 'U' && s.get_char(2) == 'L' && s.get_char(3)
        == 'L';
    assert(r ==> s@ =~= "NULL"@);
    r
}

/// Appends the block that shows `content`.
pub fn push_content(out: &mut String, content: &str)
    ensures
        final(out)@ == old(out)@ + content_block(content@),
{
    if is_missing_content(content) {
        out.append("(no content)");
    } else if starts_with_markup(content) {
        out.append(content);
    } else {
        out.append("<pre>");
        push_escaped(out, content);
        out.append("</pre>");
        assert(out@ =~= old(out)@ + content_block(content@));
    }
}

/// The block that shows `content`: a placeholder when there is none, the
/// content itself when it is markup, else the escaped text preformatted.
pub fn render_content(content: &str) -> (r: String)
    ensures
        r@ == content_block(content@),
{
    let mut out = String::new();
    push_content(&mut out, content);
    assert(out@ =~= content_block(content@));
    out
}

/// Appends the block of one entry.
pub fn push_item(out: &mut String, item: &Item)
    ensures
        final(out)@ == old(out)@ + item_html(item@),
{
    out.append("<h3><a href=\"");
    push_escaped(out, item.link());
    out.append("\">");
    push_escaped(out, item.title());
    out.append("</a></h3>\n");
    push_content(out, item.content());
    out.append("\n<hr>\n");
    assert(out@ =~= old(out)@ + item_html(item@));
}

/// The page that shows `items`, in their order.
pub fn render_document(items: &Vec<Item>) -> (r: String)
    ensures
        r@ == document(models(items@)),
{
    let mut out = String::new();
    out.append("<!DOCTYPE html>\n<meta charset=\"utf-8\">\n<title>Unread sfeed items</title>\n<body style=\"max-width:900px; margin:2rem auto\">\n");
    let ghost head = out@;
    let mut i: usize = 0;
    while i < items.len()
        invariant
            i <= items@.len(),
            head == document_head(),
            out@ == head + items_html(models(items@).subrange(0, i as int)),
        decreases items@.len() - i,
    {
        push_item(&mut out, &items[i]);
        i = i + 1;
        assert(models(items@).subrange(0, i as int).drop_last() == models(items@).subrange(
            0,
            i - 1,
        ));
        assert(out@ =~= head + items_html(models(items@).subrange(0, i as int)));
    }
    out.append("</body></html>\n");
    assert(models(items@).subrange(0, i as int) == models(items@));
    assert(out@ =~= document(models(items@)));
    out
}

} // verus!
