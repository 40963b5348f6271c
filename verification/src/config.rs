use vstd::prelude::*;
use crate::store::Store;
use crate::textutil::chars_to_string;
use vstd::string::StrSliceExecFns;

verus! {

/// What the process runs on: the configured feed URLs and the per-feed
/// watermarks, both handed in explicitly at startup.
#[derive(Debug)]
pub struct Config {
    pub rss_feeds: Vec<String>,
    pub feeds_date: Store,
}

/// A carriage return just before the line break is not part of the line.
pub open spec fn strip_cr(l: Seq<char>) -> Seq<char> {
    if l.len() > 0 && l.last() == '\r' {
        l.drop_last()
    } else {
        l
    }
}

/// The lines of a text: split at each line break, the break not included;
/// a final fragment without a break counts only when it is not empty.
pub open spec fn split_lines(s: Seq<char>, cur: Seq<char>) -> Seq<Seq<char>>
    decreases s.len(),
{
    if s.len() == 0 {
        if cur.len() == 0 {
            Seq::empty()
        } else {
            seq![strip_cr(cur)]
        }
    } else if s[0] == '\n' {
        seq![strip_cr(cur)] + split_lines(s.skip(1), Seq::empty())
    } else {
        split_lines(s.skip(1), cur.push(s[0]))
    }
}

/// The feed URLs a feed-list text names: its lines, blank ones dropped.
pub open spec fn feeds_spec(s: Seq<char>) -> Seq<Seq<char>> {
    split_lines(s, Seq::empty()).filter(|l: Seq<char>| l.len() > 0)
}

proof fn lemma_filter_add(a: Seq<Seq<char>>, b: Seq<Seq<char>>, pred: spec_fn(Seq<char>) -> bool)
    ensures
        (a + b).filter(pred) == a.filter(pred) + b.filter(pred),
    decreases b.len(),
{
    reveal(Seq::filter);
    if b.len() == 0 {
        assert(a + b =~= a);
        assert(a.filter(pred) + b.filter(pred) =~= a.filter(pred));
    } else {
        lemma_filter_add(a, b.drop_last(), pred);
        assert((a + b).drop_last() =~= a + b.drop_last());
        assert((a + b).last() == b.last());
        if pred(b.last()) {
            assert(a.filter(pred) + b.filter(pred) =~= (a.filter(pred) + b.drop_last().filter(
                pred,
            )).push(b.last()));
        }
    }
}

proof fn lemma_filter_single(x: Seq<char>, pred: spec_fn(Seq<char>) -> bool)
    ensures
        pred(x) ==> seq![x].filter(pred) == seq![x],
        !pred(x) ==> seq![x].filter(pred) == Seq::<Seq<char>>::empty(),
{
    reveal(Seq::filter);
    assert(seq![x].drop_last() =~= Seq::<Seq<char>>::empty());
    assert(seq![x].last() == x);
    assert(Seq::<Seq<char>>::empty().filter(pred) == Seq::<Seq<char>>::empty());
    if pred(x) {
        assert(seq![x].filter(pred) =~= seq![x]);
    } else {
        assert(seq![x].filter(pred) =~= Seq::<Seq<char>>::empty());
    }
}

/// Read the feed list: one URL per line, blank lines ignored, in order.
pub fn parse_feed_list(text: &str) -> (r: Vec<String>)
    ensures
        r@.map_values(|x: String| x@) == feeds_spec(text@),
{
    let n = text.unicode_len();
    let mut out: Vec<String> = Vec::new();
    let mut cur: Vec<char> = Vec::new();
    let mut i: usize = 0;
    proof {
        assert(text@.skip(0int) =~= text@);
        assert(out@.map_values(|x: String| x@) =~= Seq::<Seq<char>>::empty());
        assert(Seq::<Seq<char>>::empty() + feeds_spec(text@) =~= feeds_spec(text@));
    }
    while i < n
        invariant
            n == text@.len(),
            0 <= i <= n,
            feeds_spec(text@) == out@.map_values(|x: String| x@) + split_lines(
                text@.skip(i as int),
                cur@,
            ).filter(|l: Seq<char>| l.len() > 0),
        decreases n - i,
    {
        let ghost tail: Seq<char> = text@.skip(i as int);
        let ghost pre_cur: Seq<char> = cur@;
        let ghost outv: Seq<Seq<char>> = out@.map_values(|x: String| x@);
        let c = text.get_char(i);
        proof {
            assert(tail[0] == text@[i as int]);
            assert(tail.skip(1) =~= text@.skip(i + 1));
        }
        if c == '\n' {
            if cur.len() > 0 && cur[cur.len() - 1] == '\r' {
                cur.pop();
            }
            proof {
                assert(cur@ =~= strip_cr(pre_cur));
            }
            let ghost lv: Seq<char> = strip_cr(pre_cur);
            let ghost rest: Seq<Seq<char>> = split_lines(text@.skip(i + 1), Seq::empty());
            proof {
                assert(split_lines(tail, pre_cur) == seq![lv] + rest);
                lemma_filter_add(seq![lv], rest, |l: Seq<char>| l.len() > 0);
                lemma_filter_single(lv, |l: Seq<char>| l.len() > 0);
            }
            if cur.len() > 0 {
                let line = chars_to_string(&cur);
                out.push(line);
                proof {
                    assert(out@.map_values(|x: String| x@) =~= outv.push(lv));
                    assert(outv.push(lv) =~= outv + seq![lv]);
                    assert(outv + (seq![lv] + rest.filter(|l: Seq<char>| l.len() > 0)) =~= (outv
                        + seq![lv]) + rest.filter(|l: Seq<char>| l.len() > 0));
                    assert(seq![lv] + rest.filter(|l: Seq<char>| l.len() > 0)
                        =~= seq![lv].filter(|l: Seq<char>| l.len() > 0) + rest.filter(
                        |l: Seq<char>| l.len() > 0,
                    ));
                }
                cur = Vec::new();
            } else {
                proof {
                    assert(lv.len() == 0);
                    assert(Seq::<Seq<char>>::empty() + rest.filter(|l: Seq<char>| l.len() > 0)
                        =~= rest.filter(|l: Seq<char>| l.len() > 0));
                }
                cur = Vec::new();
            }
        } else {
            cur.push(c);
            proof {
                assert(cur@ =~= pre_cur.push(text@[i as int]));
                assert(split_lines(tail, pre_cur) == split_lines(text@.skip(i + 1), cur@));
            }
        }
        i += 1;
    }
    proof {
        assert(text@.skip(n as int) =~= Seq::<char>::empty());
    }
    let ghost outv: Seq<Seq<char>> = out@.map_values(|x: String| x@);
    let ghost pre_cur: Seq<char> = cur@;
    if cur.len() > 0 && cur[cur.len() - 1] == '\r' {
        cur.pop();
    }
    proof {
        assert(cur@ =~= strip_cr(pre_cur));
        lemma_filter_single(strip_cr(pre_cur), |l: Seq<char>| l.len() > 0);
        reveal(Seq::filter);
    }
    if cur.len() > 0 {
        let line = chars_to_string(&cur);
        out.push(line);
        proof {
            assert(split_lines(Seq::<char>::empty(), pre_cur) == seq![strip_cr(pre_cur)]);
            assert(out@.map_values(|x: String| x@) =~= outv.push(strip_cr(pre_cur)));
            assert(outv.push(strip_cr(pre_cur)) =~= outv + seq![strip_cr(pre_cur)]);
        }
    } else {
        proof {
            if pre_cur.len() == 0 {
                assert(split_lines(Seq::<char>::empty(), pre_cur)
                    =~= Seq::<Seq<char>>::empty());
            } else {
                assert(split_lines(Seq::<char>::empty(), pre_cur) == seq![strip_cr(pre_cur)]);
                assert(strip_cr(pre_cur).len() == 0);
            }
            assert(out@.map_values(|x: String| x@) =~= outv);
            assert(outv + Seq::<Seq<char>>::empty() =~= outv);
        }
    }
    out
}

/// A feed list made of blank lines alone names no feed: the process then
/// stops with an error before any snapshot is written.
pub proof fn lemma_blank_feed_list(text: Seq<char>)
    requires
        forall|i: int| 0 <= i < text.len() ==> text[i] == '\n',
    ensures
        feeds_spec(text) == Seq::<Seq<char>>::empty(),
{
    lemma_blank_split(text);
    lemma_all_blank_filter(split_lines(text, Seq::empty()));
}

proof fn lemma_blank_split(text: Seq<char>)
    requires
        forall|i: int| 0 <= i < text.len() ==> text[i] == '\n',
    ensures
        forall|j: int|
            0 <= j < split_lines(text, Seq::empty()).len() ==> (#[trigger] split_lines(
                text,
                Seq::empty(),
            )[j]).len() == 0,
    decreases text.len(),
{
    if text.len() > 0 {
        assert(text[0] == '\n');
        assert(forall|i: int| 0 <= i < text.skip(1).len() ==> #[trigger] text.skip(1)[i] == '\n');
        lemma_blank_split(text.skip(1));
        assert(split_lines(text, Seq::empty()) == seq![strip_cr(Seq::empty())] + split_lines(
            text.skip(1),
            Seq::empty(),
        ));
        assert(strip_cr(Seq::<char>::empty()).len() == 0);
    }
}

proof fn lemma_all_blank_filter(ls: Seq<Seq<char>>)
    requires
        forall|j: int| 0 <= j < ls.len() ==> (#[trigger] ls[j]).len() == 0,
    ensures
        ls.filter(|l: Seq<char>| l.len() > 0) == Seq::<Seq<char>>::empty(),
    decreases ls.len(),
{
    reveal(Seq::filter);
    if ls.len() > 0 {
        assert(forall|j: int|
            0 <= j < ls.drop_last().len() ==> #[trigger] ls.drop_last()[j] == ls[j]);
        lemma_all_blank_filter(ls.drop_last());
        assert(ls.last().len() == 0);
    }
}

} // verus!
