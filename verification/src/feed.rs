use vstd::prelude::*;
use crate::store::Store;
use crate::time::{Timestamp, parse_rfc2822, rfc2822_secs};

verus! {

/// One item of a feed document, as the schema
/// `{channel: {title, link, item: [{title, link, description, pub_date}]}}`
/// yields it. The date stays a string here; it is interpreted by the
/// new-item rule.
#[derive(Debug)]
pub struct RSSItem {
    pub title: String,
    pub link: String,
    pub description: String,
    pub pub_date: String,
}

/// The channel of a feed document.
#[derive(Debug)]
pub struct RSSChannel {
    pub title: String,
    pub link: String,
    pub item: Vec<RSSItem>,
}

/// A whole feed document.
#[derive(Debug)]
pub struct RSS {
    pub channel: RSSChannel,
}

/// A newly detected item together with the icon that its notification shows.
#[derive(Debug)]
pub struct Post {
    pub title: String,
    pub description: String,
    pub link: String,
    pub icon: String,
}

impl Post {
    /// Build the transient view of an item that a notification is made from.
    pub fn from_item(item: RSSItem, icon: String) -> (r: Post)
        ensures
            r.title == item.title,
            r.description == item.description,
            r.link == item.link,
            r.icon == icon,
    {
        Post { title: item.title, description: item.description, link: item.link, icon }
    }
}

/// The instant an item was published, if its date field is well formed.
pub open spec fn item_date(i: RSSItem) -> Option<i64> {
    rfc2822_secs(i.pub_date@)
}

/// The new-item rule: an item is surfaced iff its date parses and lies
/// strictly after the feed's current watermark.
pub open spec fn is_new(i: RSSItem, watermark: i64) -> bool {
    match item_date(i) {
        Some(d) => d > watermark,
        None => false,
    }
}

/// The advanced watermark: the maximum of the old watermark and the dates
/// of all items that the new-item rule admits.
pub open spec fn new_watermark(items: Seq<RSSItem>, watermark: i64) -> i64
    decreases items.len(),
{
    if items.len() == 0 {
        watermark
    } else {
        let rest = new_watermark(items.drop_last(), watermark);
        match item_date(items.last()) {
            Some(d) => if d > watermark && d > rest {
                d
            } else {
                rest
            },
            None => rest,
        }
    }
}

proof fn lemma_filter_push(s: Seq<RSSItem>, x: RSSItem, pred: spec_fn(RSSItem) -> bool)
    ensures
        s.push(x).filter(pred) == if pred(x) {
            s.filter(pred).push(x)
        } else {
            s.filter(pred)
        },
{
    reveal(Seq::filter);
    assert(s.push(x).drop_last() =~= s);
    assert(s.push(x).last() == x);
}

proof fn lemma_new_watermark_push(s: Seq<RSSItem>, x: RSSItem, w: i64)
    ensures
        new_watermark(s.push(x), w) == ({
            let rest = new_watermark(s, w);
            match item_date(x) {
                Some(d) => if d > w && d > rest {
                    d
                } else {
                    rest
                },
                None => rest,
            }
        }),
{
    assert(s.push(x).drop_last() =~= s);
    assert(s.push(x).last() == x);
}

/// The advanced watermark never regresses.
pub proof fn lemma_new_watermark_monotone(items: Seq<RSSItem>, w: i64)
    ensures
        w <= new_watermark(items, w),
    decreases items.len(),
{
    if items.len() > 0 {
        lemma_new_watermark_monotone(items.drop_last(), w);
    }
}

/// The advanced watermark is the maximum of the old watermark and the
/// dates of the admitted items: no admitted item lies after it, and it is
/// either the old watermark or the date of some admitted item.
pub proof fn lemma_new_watermark_is_max(items: Seq<RSSItem>, w: i64)
    ensures
        forall|i: int|
            0 <= i < items.len() && is_new(items[i], w) ==> item_date(items[i]).unwrap()
                <= new_watermark(items, w),
        new_watermark(items, w) == w || exists|i: int|
            0 <= i < items.len() && is_new(items[i], w) && item_date(items[i]).unwrap()
                == new_watermark(items, w),
    decreases items.len(),
{
    if items.len() > 0 {
        lemma_new_watermark_is_max(items.drop_last(), w);
        lemma_new_watermark_monotone(items.drop_last(), w);
        assert forall|i: int|
            0 <= i < items.len() && is_new(items[i], w) implies item_date(items[i]).unwrap()
            <= new_watermark(items, w) by {
            if i < items.len() - 1 {
                assert(items.drop_last()[i] == items[i]);
            }
        }
        if new_watermark(items, w) != w {
            let rest = new_watermark(items.drop_last(), w);
            if new_watermark(items, w) == rest {
                let j = choose|j: int|
                    0 <= j < items.drop_last().len() && is_new(items.drop_last()[j], w)
                        && item_date(items.drop_last()[j]).unwrap() == rest;
                assert(items[j] == items.drop_last()[j]);
            } else {
                assert(is_new(items.last(), w));
                assert(items[items.len() - 1] == items.last());
            }
        }
    }
}

/// A poll whose items all lack a well-formed date leaves the watermark
/// unchanged and surfaces nothing; with no items at all the same holds.
pub proof fn lemma_no_parseable_keeps_watermark(items: Seq<RSSItem>, w: i64)
    requires
        forall|i: int| 0 <= i < items.len() ==> item_date(#[trigger] items[i]) is None,
    ensures
        new_watermark(items, w) == w,
        items.filter(|it: RSSItem| is_new(it, w)) == Seq::<RSSItem>::empty(),
    decreases items.len(),
{
    reveal(Seq::filter);
    if items.len() > 0 {
        assert(forall|i: int|
            0 <= i < items.drop_last().len() ==> items.drop_last()[i] == items[i]);
        lemma_no_parseable_keeps_watermark(items.drop_last(), w);
        assert(item_date(items.last()) is None);
    }
}

proof fn lemma_filter_congruent(
    s: Seq<RSSItem>,
    pred_a: spec_fn(RSSItem) -> bool,
    pred_b: spec_fn(RSSItem) -> bool,
)
    requires
        forall|i: int| 0 <= i < s.len() ==> pred_a(#[trigger] s[i]) == pred_b(s[i]),
    ensures
        s.filter(pred_a) == s.filter(pred_b),
    decreases s.len(),
{
    reveal(Seq::filter);
    if s.len() > 0 {
        assert(forall|i: int| 0 <= i < s.drop_last().len() ==> s.drop_last()[i] == s[i]);
        lemma_filter_congruent(s.drop_last(), pred_a, pred_b);
        assert(pred_a(s.last()) == pred_b(s.last()));
    }
}

/// A feed never seen before polls against the epoch watermark, so when all
/// well-formed dates lie after the epoch, its first successful poll
/// surfaces exactly the items with a well-formed date.
pub proof fn lemma_fresh_feed_surfaces_all(items: Seq<RSSItem>)
    requires
        forall|i: int|
            0 <= i < items.len() && item_date(#[trigger] items[i]) is Some ==> item_date(
                items[i],
            ).unwrap() > 0,
    ensures
        items.filter(|it: RSSItem| is_new(it, 0)) == items.filter(
            |it: RSSItem| item_date(it) is Some,
        ),
{
    assert forall|i: int|
        0 <= i < items.len() implies (is_new(#[trigger] items[i], 0) == (item_date(
        items[i],
    ) is Some)) by {
        if item_date(items[i]) is Some {
            let d = item_date(items[i]).unwrap();
            assert(item_date(items[i]) == Some(d));
        }
    }
    lemma_filter_congruent(
        items,
        |it: RSSItem| is_new(it, 0),
        |it: RSSItem| item_date(it) is Some,
    );
}

/// An item whose date is not well formed never affects the advanced
/// watermark and is never surfaced, wherever it stands among the items.
pub proof fn lemma_unparseable_item_ignored(s1: Seq<RSSItem>, bad: RSSItem, s2: Seq<RSSItem>, w: i64)
    requires
        item_date(bad) is None,
    ensures
        new_watermark(s1 + seq![bad] + s2, w) == new_watermark(s1 + s2, w),
        (s1 + seq![bad] + s2).filter(|it: RSSItem| is_new(it, w)) == (s1 + s2).filter(
            |it: RSSItem| is_new(it, w),
        ),
    decreases s2.len(),
{
    let pred = |it: RSSItem| is_new(it, w);
    if s2.len() == 0 {
        assert(s1 + seq![bad] + s2 =~= s1.push(bad));
        assert(s1 + s2 =~= s1);
        lemma_new_watermark_push(s1, bad, w);
        lemma_filter_push(s1, bad, pred);
    } else {
        let y = s2.last();
        assert(s1 + seq![bad] + s2 =~= (s1 + seq![bad] + s2.drop_last()).push(y));
        assert(s1 + s2 =~= (s1 + s2.drop_last()).push(y));
        lemma_unparseable_item_ignored(s1, bad, s2.drop_last(), w);
        lemma_new_watermark_push(s1 + seq![bad] + s2.drop_last(), y, w);
        lemma_new_watermark_push(s1 + s2.drop_last(), y, w);
        lemma_filter_push(s1 + seq![bad] + s2.drop_last(), y, pred);
        lemma_filter_push(s1 + s2.drop_last(), y, pred);
    }
}

/// Scan a feed's items against the current watermark: return exactly the
/// items the new-item rule admits, in the order the feed yields them, and
/// the advanced watermark.
pub fn select_new(items: Vec<RSSItem>, watermark: Timestamp) -> (r: (Vec<RSSItem>, Timestamp))
    ensures
        r.0@ == items@.filter(|it: RSSItem| is_new(it, watermark.secs)),
        r.1.secs == new_watermark(items@, watermark.secs),
        watermark.secs <= r.1.secs,
{
    let ghost orig: Seq<RSSItem> = items@;
    let mut remaining = items;
    let mut out: Vec<RSSItem> = Vec::new();
    let mut max_date = watermark;
    let ghost mut done: int = 0;
    while remaining.len() > 0
        invariant
            0 <= done <= orig.len(),
            remaining@ == orig.skip(done),
            out@ == orig.take(done).filter(|it: RSSItem| is_new(it, watermark.secs)),
            max_date.secs == new_watermark(orig.take(done), watermark.secs),
            watermark.secs <= max_date.secs,
        decreases remaining.len(),
    {
        let it = remaining.remove(0);
        proof {
            assert(orig.skip(done).len() > 0);
            assert(it == orig[done]);
            assert(orig.skip(done).remove(0) =~= orig.skip(done + 1));
            assert(orig.take(done + 1) =~= orig.take(done).push(orig[done]));
            lemma_filter_push(
                orig.take(done),
                orig[done],
                |x: RSSItem| is_new(x, watermark.secs),
            );
            lemma_new_watermark_push(orig.take(done), orig[done], watermark.secs);
        }
        match parse_rfc2822(it.pub_date.as_str()) {
            Some(d) => {
                if d.secs > watermark.secs {
                    if d.secs > max_date.secs {
                        max_date = d;
                    }
                    out.push(it);
                }
            },
            None => {},
        }
        proof {
            done = done + 1;
        }
    }
    proof {
        assert(orig.take(done) =~= orig);
    }
    (out, max_date)
}

/// The watermark a store answers for a feed: what it recorded, or the
/// epoch for a feed never seen before.
pub open spec fn watermark_of(st: Store, feed: Seq<char>) -> i64 {
    if st.map_view().contains_key(feed) {
        st.map_view()[feed]
    } else {
        0
    }
}

/// One feed's poll step after its document is fetched and parsed: surface
/// exactly the items the new-item rule admits against the feed's current
/// watermark, and advance that watermark to the maximum admitted date.
/// The watermark never regresses, and no other feed's entry changes.
pub fn poll_feed(store: &mut Store, feed: &String, items: Vec<RSSItem>) -> (r: (
    Vec<RSSItem>,
    Timestamp,
))
    requires
        old(store).wf(),
    ensures
        final(store).wf(),
        r.0@ == items@.filter(|it: RSSItem| is_new(it, watermark_of(*old(store), feed@))),
        r.1.secs == new_watermark(items@, watermark_of(*old(store), feed@)),
        watermark_of(*old(store), feed@) <= r.1.secs,
        final(store).map_view() == old(store).map_view().insert(feed@, r.1.secs),
{
    let current = store.get(feed);
    let (posts, advanced) = select_new(items, current);
    store.set(feed, advanced);
    (posts, advanced)
}

} // verus!
