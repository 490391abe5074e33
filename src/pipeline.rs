//! One run: parse every record, keep the entries not read yet, and produce the
//! page that shows them and the text that records them as read.
use vstd::prelude::*;
use crate::record::{parse_record, Item, ItemModel};
use crate::render::{document, models, render_document};
use crate::store::{
    append_record, appended_text, is_storable, lemma_round_trip, links_of, stored_links, ReadState,
};

verus! {

pub open spec fn line_views(lines: Seq<String>) -> Seq<Seq<char>> {
    lines.map_values(|s: String| s@)
}

/// The entries of the lines that parse, in input order.
pub open spec fn parsed_items(lines: Seq<Seq<char>>) -> Seq<ItemModel>
    decreases lines.len(),
{
    if lines.len() == 0 {
        Seq::<ItemModel>::empty()
    } else {
        let prev = parsed_items(lines.drop_last());
        match parse_record(lines.last()) {
            Some(it) => prev.push(it),
            None => prev,
        }
    }
}

/// The positions of the lines that do not parse, in increasing order.
pub open spec fn rejected_lines(lines: Seq<Seq<char>>) -> Seq<int>
    decreases lines.len(),
{
    if lines.len() == 0 {
        Seq::<int>::empty()
    } else {
        let prev = rejected_lines(lines.drop_last());
        match parse_record(lines.last()) {
            Some(_) => prev,
            None => prev.push(lines.len() - 1),
        }
    }
}

/// The entries whose link is not in `read`, in their order.
pub open spec fn unread(items: Seq<ItemModel>, read: Set<Seq<char>>) -> Seq<ItemModel>
    decreases items.len(),
{
    if items.len() == 0 {
        Seq::<ItemModel>::empty()
    } else {
        let prev = unread(items.drop_last(), read);
        if read.contains(items.last().link) {
            prev
        } else {
            prev.push(items.last())
        }
    }
}

/// Filtering by a larger set leaves nothing once it holds every link that
/// filtering by the smaller set let through.
pub proof fn lemma_unread_exhausted(
    items: Seq<ItemModel>,
    before: Set<Seq<char>>,
    after: Set<Seq<char>>,
)
    requires
        before.subset_of(after),
        forall|k: int|
            0 <= k < unread(items, before).len() ==> after.contains(
                (#[trigger] unread(items, before)[k]).link,
            ),
    ensures
        unread(items, after).len() == 0,
    decreases items.len(),
{
    if items.len() > 0 {
        let init = items.drop_last();
        let u = unread(init, before);
        if !before.contains(items.last().link) {
            assert(unread(items, before) == u.push(items.last()));
            assert(unread(items, before)[u.len() as int] == items.last());
        } else {
            assert(unread(items, before) == u);
        }
        assert forall|k: int| 0 <= k < u.len() implies after.contains((#[trigger] u[k]).link) by {
            assert(unread(items, before)[k] == u[k]);
        }
        lemma_unread_exhausted(init, before, after);
    }
}

/// Running twice on the same input, with the first run's links appended to
/// the store in between, shows nothing the second time.
pub proof fn lemma_second_run_shows_nothing(lines: Seq<Seq<char>>, old_text: Seq<char>)
    requires
        old_text.len() == 0 || old_text.last() == '\n',
        forall|k: int|
            0 <= k < unread(parsed_items(lines), stored_links(old_text)).len() ==> is_storable(
                (#[trigger] unread(parsed_items(lines), stored_links(old_text))[k]).link,
            ),
    ensures
        unread(
            parsed_items(lines),
            stored_links(
                old_text + appended_text(
                    links_of(unread(parsed_items(lines), stored_links(old_text))),
                ),
            ),
        ).len() == 0,
{
    let items = parsed_items(lines);
    let fresh = unread(items, stored_links(old_text));
    let links = links_of(fresh);
    assert forall|k: int| 0 <= k < links.len() implies is_storable(#[trigger] links[k]) by {
        assert(links[k] == fresh[k].link);
    }
    lemma_round_trip(old_text, links);
    let after = stored_links(old_text + appended_text(links));
    assert forall|k: int| 0 <= k < fresh.len() implies after.contains((#[trigger] fresh[k]).link) by {
        assert(links[k] == fresh[k].link);
    }
    lemma_unread_exhausted(items, stored_links(old_text), after);
}

/// What a run has to do.
pub struct RunPlan {
    /// Positions of the input lines that were rejected.
    pub rejected: Vec<usize>,
    /// The entries not read yet, in input order.
    pub fresh: Vec<Item>,
    /// The page to show; `None` when there is nothing new.
    pub page: Option<String>,
    /// The text to append to the store file; `None` when there is nothing new.
    pub store_append: Option<String>,
}

/// Decides a run over the input lines against the links already read.
pub fn plan_run(lines: &Vec<String>, state: &ReadState) -> (r: RunPlan)
    ensures
        models(r.fresh@) == unread(parsed_items(line_views(lines@)), state@),
        r.rejected@.map_values(|k: usize| k as int) == rejected_lines(line_views(lines@)),
        r.page is None <==> r.fresh@.len() == 0,
        r.store_append is None <==> r.fresh@.len() == 0,
        r.page matches Some(p) ==> p@ == document(models(r.fresh@)),
        r.store_append matches Some(a) ==> a@ == appended_text(links_of(models(r.fresh@))),
{
    let ghost lv = line_views(lines@);
    let mut fresh: Vec<Item> = Vec::new();
    let mut rejected: Vec<usize> = Vec::new();
    let mut i: usize = 0;
    while i < lines.len()
        invariant
            i <= lines@.len(),
            lv == line_views(lines@),
            models(fresh@) == unread(parsed_items(lv.subrange(0, i as int)), state@),
            rejected@.map_values(|k: usize| k as int) == rejected_lines(lv.subrange(0, i as int)),
        decreases lines@.len() - i,
    {
        let ghost prefix = lv.subrange(0, i as int + 1);
        assert(prefix.drop_last() == lv.subrange(0, i as int));
        assert(prefix.last() == lines@[i as int]@);
        let ghost before = models(fresh@);
        match Item::parse_from_line(lines[i].as_str()) {
            Ok(item) => {
                assert(parsed_items(prefix) == parsed_items(lv.subrange(0, i as int)).push(item@));
                assert(parsed_items(prefix).drop_last() == parsed_items(lv.subrange(0, i as int)));
                if !state.contains(item.link()) {
                    fresh.push(item);
                    assert(models(fresh@) =~= before.push(item@));
                }
            },
            Err(_) => {
                rejected.push(i);
            },
        }
        i = i + 1;
        assert(models(fresh@) =~= unread(parsed_items(prefix), state@));
        assert(rejected@.map_values(|k: usize| k as int) =~= rejected_lines(prefix));
    }
    assert(lv.subrange(0, i as int) == lv);
    if fresh.len() == 0 {
        RunPlan { rejected, fresh, page: None, store_append: None }
    } else {
        let page = render_document(&fresh);
        let store_append = append_record(&fresh);
        RunPlan { rejected, fresh, page: Some(page), store_append: Some(store_append) }
    }
}

} // verus!
