//! The read-state store: the set of links already shown, kept as an
//! append-only text file with one link per line.
use vstd::prelude::*;
use crate::record::{Item, ItemModel};
use crate::render::models;
use crate::text::{
    lemma_split_on_concat, lemma_split_on_ends_empty, lemma_split_on_without_sep, push_char,
    split_on, split_str,
};

verus! {

/// Whether a line of the store file names a link: it is not blank and not a
/// `#` comment.
pub open spec fn is_link_line(l: Seq<char>) -> bool {
    l.len() > 0 && l[0] != '#'
}

/// A line without the carriage return of a `\r\n` line ending.
pub open spec fn strip_cr(l: Seq<char>) -> Seq<char> {
    if l.len() > 0 && l.last() == '\r' {
        l.drop_last()
    } else {
        l
    }
}

/// The lines of a store file's text, each without a carriage return at its end.
pub open spec fn store_lines(text: Seq<char>) -> Seq<Seq<char>> {
    split_on(text, '\n').map_values(|x: Seq<char>| strip_cr(x))
}

/// The links that a store file's text records.
pub open spec fn stored_links(text: Seq<char>) -> Set<Seq<char>> {
    Set::new(|l: Seq<char>| store_lines(text).contains(l) && is_link_line(l))
}

/// Each link followed by a line break.
pub open spec fn link_lines(links: Seq<Seq<char>>) -> Seq<char>
    decreases links.len(),
{
    if links.len() == 0 {
        Seq::<char>::empty()
    } else {
        link_lines(links.drop_last()) + links.last() + seq!['\n']
    }
}

/// What one run appends to the store file: each link on a line of its own,
/// then a blank line that sets the run apart.
pub open spec fn appended_text(links: Seq<Seq<char>>) -> Seq<char> {
    link_lines(links) + seq!['\n']
}

/// The links of a sequence of entries, in order.
pub open spec fn links_of(items: Seq<ItemModel>) -> Seq<Seq<char>> {
    items.map_values(|i: ItemModel| i.link)
}

/// A link that the store file can hold so that it reads back: not blank, not
/// taken for a comment, on one line, and not ending in a carriage return.
pub open spec fn is_storable(l: Seq<char>) -> bool {
    is_link_line(l) && !l.contains('\n') && l.last() != '\r'
}

/// The lines of what a run appends, its closing blank line aside, are its links.
pub proof fn lemma_split_link_lines(links: Seq<Seq<char>>)
    requires
        forall|k: int| 0 <= k < links.len() ==> !(#[trigger] links[k]).contains('\n'),
    ensures
        split_on(link_lines(links), '\n') == links.push(Seq::<char>::empty()),
    decreases links.len(),
{
    if links.len() == 0 {
        assert(split_on(Seq::<char>::empty(), '\n') =~= links.push(Seq::<char>::empty()));
    } else {
        let init = links.drop_last();
        let last = links.last();
        assert(!links[links.len() - 1].contains('\n'));
        lemma_split_link_lines(init);
        let b = last + seq!['\n'];
        lemma_split_on_concat(link_lines(init), b, '\n');
        lemma_split_on_without_sep(last, '\n');
        assert(b.drop_last() == last);
        assert(split_on(b, '\n') =~= seq![last, Seq::<char>::empty()]);
        assert(link_lines(links) == link_lines(init) + b);
        assert(split_on(link_lines(links), '\n') =~= links.push(Seq::<char>::empty()));
    }
}

/// Appending a run's record to a store file keeps every link it had, and
/// every link appended is found when the file is read again.
pub proof fn lemma_round_trip(old_text: Seq<char>, links: Seq<Seq<char>>)
    requires
        old_text.len() == 0 || old_text.last() == '\n',
        forall|k: int| 0 <= k < links.len() ==> is_storable(#[trigger] links[k]),
    ensures
        stored_links(old_text).subset_of(stored_links(old_text + appended_text(links))),
        forall|k: int|
            0 <= k < links.len() ==> stored_links(old_text + appended_text(links)).contains(
                #[trigger] links[k],
            ),
{
    let ll = link_lines(links);
    lemma_split_link_lines(links);
    if links.len() > 0 {
        assert(ll == link_lines(links.drop_last()) + links.last() + seq!['\n']);
    }
    lemma_split_on_concat(ll, seq!['\n'], '\n');
    assert(seq!['\n'].drop_last() =~= Seq::<char>::empty());
    assert(split_on(Seq::<char>::empty(), '\n') =~= seq![Seq::<char>::empty()]);
    assert(split_on(seq!['\n'], '\n') =~= seq![Seq::<char>::empty(), Seq::<char>::empty()]);
    let tail = appended_text(links);
    lemma_split_on_concat(old_text, tail, '\n');
    lemma_split_on_ends_empty(old_text, '\n');
    let old_lines = split_on(old_text, '\n');
    let all = split_on(old_text + tail, '\n');
    assert(split_on(tail, '\n') =~= links + seq![Seq::<char>::empty(), Seq::<char>::empty()]);
    assert(all == old_lines.drop_last() + split_on(tail, '\n'));
    let d = old_lines.drop_last().len();
    let old_stored = store_lines(old_text);
    let all_stored = store_lines(old_text + tail);
    assert forall|k: int| 0 <= k < links.len() implies stored_links(old_text + tail).contains(
        #[trigger] links[k],
    ) by {
        assert(all[d + k] == links[k]);
        assert(all_stored[d + k] == links[k]);
    }
    assert forall|l: Seq<char>| stored_links(old_text).contains(l) implies stored_links(
        old_text + tail,
    ).contains(l) by {
        let j = choose|j: int| 0 <= j < old_stored.len() && old_stored[j] == l;
        assert(old_stored[j] == strip_cr(old_lines[j]));
        assert(j != old_lines.len() - 1);
        assert(all[j] == old_lines[j]);
        assert(all_stored[j] == l);
    }
}

/// The set of links already shown.
///
/// A `Vec` with a linear search stands in for a hash set: std's hash set has
/// no specification for `String` keys that a proof could rest on, and the
/// view as a set keeps the meaning (order and repeats do not count).
pub struct ReadState {
    links: Vec<String>,
}

impl View for ReadState {
    type V = Set<Seq<char>>;

    closed spec fn view(&self) -> Set<Seq<char>> {
        self.links@.map_values(|s: String| s@).to_set()
    }
}

impl ReadState {
    /// The empty store, as on a first run.
    pub fn new() -> (r: ReadState)
        ensures
            r@ == Set::<Seq<char>>::empty(),
    {
        let r = ReadState { links: Vec::new() };
        assert(r@ =~= Set::<Seq<char>>::empty());
        r
    }

    /// Whether `link` has been shown already.
    pub fn contains(&self, link: &str) -> (r: bool)
        ensures
            r == self@.contains(link@),
    {
        let key = String::from_str(link);
        let ghost v = self.links@.map_values(|s: String| s@);
        let mut i: usize = 0;
        while i < self.links.len()
            invariant
                i <= self.links@.len(),
                v == self.links@.map_values(|s: String| s@),
                key@ == link@,
                forall|j: int| 0 <= j < i ==> v[j] != link@,
            decreases self.links@.len() - i,
        {
            if self.links[i] == key {
                assert(v[i as int] == link@);
                assert(v.to_set().contains(link@));
                return true;
            }
            i = i + 1;
        }
        assert(!v.contains(link@));
        false
    }

    /// Records `link` as shown.
    pub fn insert(&mut self, link: &str)
        ensures
            final(self)@ == old(self)@.insert(link@),
    {
        let ghost v = self.links@.map_values(|s: String| s@);
        self.links.push(String::from_str(link));
        assert(self.links@.map_values(|s: String| s@) =~= v.push(link@));
        proof {
            v.lemma_push_to_set_commute(link@);
        }
    }

    /// Reads a store file's text: every line that is neither blank nor a `#`
    /// comment is a link. A line ending `\r\n` loses its carriage return.
    pub fn load(text: &str) -> (r: ReadState)
        ensures
            r@ == stored_links(text@),
    {
        let lines = split_str(text, '\n');
        let ghost raw = lines@.map_values(|s: String| s@);
        let ghost lv = store_lines(text@);
        let mut state = ReadState::new();
        let mut i: usize = 0;
        while i < lines.len()
            invariant
                i <= lines@.len(),
                raw == lines@.map_values(|s: String| s@),
                raw == split_on(text@, '\n'),
                lv == store_lines(text@),
                state@ == Set::new(|l: Seq<char>| lv.subrange(0, i as int).contains(l) && is_link_line(l)),
            decreases lines@.len() - i,
        {
            let whole = lines[i].as_str();
            let n = whole.unicode_len();
            let line = if n > 0 && whole.get_char(n - 1) == '\r' {
                whole.substring_char(0, n - 1)
            } else {
                whole
            };
            assert(raw[i as int] == whole@);
            assert(line@ == lv[i as int]);
            let keep = line.unicode_len() > 0 && line.get_char(0) != '#';
            if keep {
                state.insert(line);
            }
            let ghost prev = lv.subrange(0, i as int);
            i = i + 1;
            assert(lv.subrange(0, i as int) == prev.push(lv[i - 1]));
            assert forall|l: Seq<char>| #[trigger]
                lv.subrange(0, i as int).contains(l) <==> (prev.contains(l) || l == lv[i - 1]) by {
                let s = prev.push(lv[i - 1]);
                if l == lv[i - 1] {
                    assert(s[s.len() - 1] == l);
                }
                if prev.contains(l) {
                    let j = choose|j: int| 0 <= j < prev.len() && prev[j] == l;
                    assert(s[j] == l);
                }
                if s.contains(l) && l != lv[i - 1] {
                    let j = choose|j: int| 0 <= j < s.len() && s[j] == l;
                    assert(prev[j] == l);
                }
            }
            assert(state@ =~= Set::new(|l: Seq<char>| lv.subrange(0, i as int).contains(l) && is_link_line(l)));
        }
        assert(lv.subrange(0, i as int) == lv);
        assert(state@ =~= stored_links(text@));
        state
    }
}

/// The text that a run appends to the store file for the entries it showed.
pub fn append_record(items: &Vec<Item>) -> (r: String)
    ensures
        r@ == appended_text(links_of(models(items@))),
{
    let ghost ls = links_of(models(items@));
    let mut out = String::new();
    let mut i: usize = 0;
    while i < items.len()
        invariant
            i <= items@.len(),
            ls == links_of(models(items@)),
            out@ == link_lines(ls.subrange(0, i as int)),
        decreases items@.len() - i,
    {
        out.append(items[i].link());
        push_char(&mut out, '\n');
        i = i + 1;
        assert(ls.subrange(0, i as int).drop_last() == ls.subrange(0, i - 1));
        assert(out@ =~= link_lines(ls.subrange(0, i as int)));
    }
    assert(ls.subrange(0, i as int) == ls);
    push_char(&mut out, '\n');
    out
}

} // verus!
