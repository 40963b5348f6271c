use vstd::prelude::*;
use crate::store::Store;
use crate::textutil::{str_to_chars, chars_to_string};
use crate::time::{Timestamp, fmt_rfc3339, parse_rfc3339, rfc3339_in_range, rfc3339_secs, rfc3339_text};

verus! {

// ---------------------------------------------------------------------------
// The snapshot text format: a flat JSON object whose keys are feed URLs and
// whose values are RFC 3339 date strings, `{"url":"date",...}`. The whole
// file is rewritten on every persist. Quotes and backslashes inside keys or
// values are escaped with a backslash.
// ---------------------------------------------------------------------------
/// How one character is written inside a quoted string.
pub open spec fn esc_char(c: char) -> Seq<char> {
    if c == '"' || c == '\\' {
        seq!['\\', c]
    } else {
        seq![c]
    }
}

/// How a whole string is written inside quotes.
pub open spec fn esc(s: Seq<char>) -> Seq<char>
    decreases s.len(),
{
    if s.len() == 0 {
        Seq::empty()
    } else {
        esc_char(s[0]) + esc(s.skip(1))
    }
}

/// One `"key":"value"` member.
pub open spec fn enc_entry(k: Seq<char>, v: Seq<char>) -> Seq<char> {
    seq!['"'] + esc(k) + seq!['"', ':', '"'] + esc(v) + seq!['"']
}

/// The members of the object, separated by commas.
pub open spec fn enc_entries(es: Seq<(Seq<char>, Seq<char>)>) -> Seq<char>
    decreases es.len(),
{
    if es.len() == 0 {
        Seq::empty()
    } else if es.len() == 1 {
        enc_entry(es[0].0, es[0].1)
    } else {
        enc_entry(es[0].0, es[0].1) + seq![','] + enc_entries(es.skip(1))
    }
}

/// The whole snapshot document.
pub open spec fn enc_doc(es: Seq<(Seq<char>, Seq<char>)>) -> Seq<char> {
    seq!['{'] + enc_entries(es) + seq!['}']
}

/// Read a quoted string's body starting at `i` (just after the opening
/// quote): the characters read and the position just after the closing
/// quote.
pub open spec fn parse_string(s: Seq<char>, i: int) -> Option<(Seq<char>, int)>
    decreases s.len() - i,
{
    if i < 0 || i >= s.len() {
        None
    } else if s[i] == '"' {
        Some((Seq::empty(), i + 1))
    } else if s[i] == '\\' {
        if i + 1 < s.len() && (s[i + 1] == '"' || s[i + 1] == '\\') {
            match parse_string(s, i + 2) {
                Some((t, j)) => Some((seq![s[i + 1]] + t, j)),
                None => None,
            }
        } else {
            None
        }
    } else {
        match parse_string(s, i + 1) {
            Some((t, j)) => Some((seq![s[i]] + t, j)),
            None => None,
        }
    }
}

/// Read one `"key":"value"` member starting at `i`.
pub open spec fn parse_entry(s: Seq<char>, i: int) -> Option<((Seq<char>, Seq<char>), int)> {
    if 0 <= i < s.len() && s[i] == '"' {
        match parse_string(s, i + 1) {
            Some((k, j)) => if j + 1 < s.len() && s[j] == ':' && s[j + 1] == '"' {
                match parse_string(s, j + 2) {
                    Some((v, m)) => Some(((k, v), m)),
                    None => None,
                }
            } else {
                None
            },
            None => None,
        }
    } else {
        None
    }
}

pub proof fn lemma_parse_string_bounds(s: Seq<char>, i: int)
    ensures
        parse_string(s, i) matches Some((t, j)) ==> i < j <= s.len(),
    decreases s.len() - i,
{
    if 0 <= i < s.len() {
        if s[i] == '"' {
        } else if s[i] == '\\' {
            if i + 1 < s.len() && (s[i + 1] == '"' || s[i + 1] == '\\') {
                lemma_parse_string_bounds(s, i + 2);
            }
        } else {
            lemma_parse_string_bounds(s, i + 1);
        }
    }
}

pub proof fn lemma_parse_entry_bounds(s: Seq<char>, i: int)
    ensures
        parse_entry(s, i) matches Some((kv, j)) ==> i < j <= s.len(),
{
    lemma_parse_string_bounds(s, i + 1);
    if 0 <= i < s.len() && s[i] == '"' && parse_string(s, i + 1) is Some {
        let (k, j) = parse_string(s, i + 1).unwrap();
        lemma_parse_string_bounds(s, j + 2);
    }
}

/// Read the members of the object starting at `i` (just after `{` or a
/// comma): the members read and the position of the closing brace.
pub open spec fn parse_entries(s: Seq<char>, i: int) -> Option<
    (Seq<(Seq<char>, Seq<char>)>, int),
>
    decreases s.len() - i,
{
    match parse_entry(s, i) {
        Some((kv, j)) => if j < s.len() && s[j] == ',' {
            proof {
                lemma_parse_entry_bounds(s, i);
            }
            match parse_entries(s, j + 1) {
                Some((rest, m)) => Some((seq![kv] + rest, m)),
                None => None,
            }
        } else {
            Some((seq![kv], j))
        },
        None => None,
    }
}

/// Read a whole snapshot document.
pub open spec fn parse_doc(s: Seq<char>) -> Option<Seq<(Seq<char>, Seq<char>)>> {
    if s.len() >= 2 && s[0] == '{' {
        if s.len() == 2 && s[1] == '}' {
            Some(Seq::empty())
        } else {
            match parse_entries(s, 1) {
                Some((es, j)) => if j == s.len() - 1 && s[j] == '}' {
                    Some(es)
                } else {
                    None
                },
                None => None,
            }
        }
    } else {
        None
    }
}

proof fn lemma_prefix_index(p: Seq<char>, q: Seq<char>, j: int)
    requires
        p.is_prefix_of(q),
        0 <= j < p.len(),
    ensures
        q[j] == p[j],
{
    assert(q.subrange(0, p.len() as int)[j] == q[j]);
}

proof fn lemma_prefix_parts(a: Seq<char>, b: Seq<char>, s: Seq<char>)
    requires
        (a + b).is_prefix_of(s),
    ensures
        a.is_prefix_of(s),
        b.is_prefix_of(s.skip(a.len() as int)),
{
    assert(a =~= (a + b).subrange(0, a.len() as int));
    assert(a.is_prefix_of(s)) by {
        assert(s.subrange(0, a.len() as int) =~= (a + b).subrange(0, a.len() as int));
    }
    assert(b =~= (a + b).subrange(a.len() as int, (a + b).len() as int));
    assert(s.skip(a.len() as int).subrange(0, b.len() as int) =~= b);
}

proof fn lemma_parse_string_esc(w: Seq<char>, t: Seq<char>, i: int)
    requires
        0 <= i <= w.len(),
        (esc(t) + seq!['"']).is_prefix_of(w.skip(i)),
    ensures
        parse_string(w, i) == Some((t, i + esc(t).len() + 1)),
    decreases t.len(),
{
    if t.len() == 0 {
        assert(esc(t) + seq!['"'] =~= seq!['"']);
        lemma_prefix_index(esc(t) + seq!['"'], w.skip(i), 0);
        assert(w.skip(i)[0] == '"');
        assert(w[i] == '"');
    } else {
        let c = t[0];
        let rest = t.skip(1);
        assert(esc(t) == esc_char(c) + esc(rest));
        assert((esc_char(c) + (esc(rest) + seq!['"'])) =~= esc(t) + seq!['"']);
        lemma_prefix_parts(esc_char(c), esc(rest) + seq!['"'], w.skip(i));
        let step = esc_char(c).len() as int;
        assert(w.skip(i).skip(step) =~= w.skip(i + step));
        lemma_parse_string_esc(w, rest, i + step);
        if c == '"' || c == '\\' {
            assert(esc_char(c) == seq!['\\', c]);
            lemma_prefix_index(esc_char(c), w.skip(i), 0);
            lemma_prefix_index(esc_char(c), w.skip(i), 1);
            assert(w.skip(i)[0] == '\\');
            assert(w.skip(i)[1] == c);
            assert(w[i] == '\\' && w[i + 1] == c);
            assert(i + 1 < w.len());
            assert(parse_string(w, i + 2) == Some((rest, i + 2 + esc(rest).len() + 1)));
            assert(seq![w[i + 1]] + rest =~= t);
        } else {
            assert(esc_char(c) == seq![c]);
            lemma_prefix_index(esc_char(c), w.skip(i), 0);
            assert(w.skip(i)[0] == c);
            assert(w[i] == c);
            assert(parse_string(w, i + 1) == Some((rest, i + 1 + esc(rest).len() + 1)));
            assert(seq![w[i]] + rest =~= t);
        }
    }
}

proof fn lemma_parse_entry_enc(w: Seq<char>, k: Seq<char>, v: Seq<char>, i: int)
    requires
        0 <= i <= w.len(),
        enc_entry(k, v).is_prefix_of(w.skip(i)),
    ensures
        parse_entry(w, i) == Some(((k, v), i + enc_entry(k, v).len() as int)),
{
    let ek = esc(k);
    let ev = esc(v);
    assert(enc_entry(k, v) =~= seq!['"'] + ((ek + seq!['"']) + (seq![':', '"'] + (ev
        + seq!['"']))));
    lemma_prefix_parts(
        seq!['"'],
        (ek + seq!['"']) + (seq![':', '"'] + (ev + seq!['"'])),
        w.skip(i),
    );
    lemma_prefix_index(seq!['"'], w.skip(i), 0);
    assert(w.skip(i)[0] == '"');
    assert(w[i] == '"');
    assert(w.skip(i).skip(1) =~= w.skip(i + 1));
    lemma_prefix_parts(ek + seq!['"'], seq![':', '"'] + (ev + seq!['"']), w.skip(i + 1));
    lemma_parse_string_esc(w, k, i + 1);
    let j = i + 1 + ek.len() as int + 1;
    assert(w.skip(i + 1).skip(ek.len() + 1int) =~= w.skip(j));
    lemma_prefix_parts(seq![':', '"'], ev + seq!['"'], w.skip(j));
    lemma_prefix_index(seq![':', '"'], w.skip(j), 0);
    lemma_prefix_index(seq![':', '"'], w.skip(j), 1);
    assert(w.skip(j)[0] == ':' && w.skip(j)[1] == '"');
    assert(w[j] == ':' && w[j + 1] == '"');
    assert(j + 1 < w.len());
    assert(w.skip(j).skip(2) =~= w.skip(j + 2));
    lemma_parse_string_esc(w, v, j + 2);
    assert(parse_string(w, j + 2) == Some((v, j + 2 + ev.len() + 1)));
    assert(j + 2 + ev.len() + 1 == i + enc_entry(k, v).len());
}

proof fn lemma_parse_entries_enc(w: Seq<char>, es: Seq<(Seq<char>, Seq<char>)>, i: int)
    requires
        es.len() >= 1,
        0 <= i <= w.len(),
        enc_entries(es).is_prefix_of(w.skip(i)),
        i + enc_entries(es).len() < w.len(),
        w[i + enc_entries(es).len()] != ',',
    ensures
        parse_entries(w, i) == Some((es, i + enc_entries(es).len() as int)),
    decreases es.len(),
{
    let e0 = es[0];
    if es.len() == 1 {
        assert(enc_entries(es) == enc_entry(e0.0, e0.1));
        lemma_parse_entry_enc(w, e0.0, e0.1, i);
        let j = i + enc_entry(e0.0, e0.1).len() as int;
        assert(w[j] != ',');
        assert(seq![e0] =~= es);
    } else {
        let rest = es.skip(1);
        assert(enc_entries(es) == enc_entry(e0.0, e0.1) + seq![','] + enc_entries(rest));
        assert((enc_entry(e0.0, e0.1) + (seq![','] + enc_entries(rest))) =~= enc_entries(es));
        lemma_prefix_parts(enc_entry(e0.0, e0.1), seq![','] + enc_entries(rest), w.skip(i));
        lemma_parse_entry_enc(w, e0.0, e0.1, i);
        let j = i + enc_entry(e0.0, e0.1).len() as int;
        assert(w.skip(i).skip(enc_entry(e0.0, e0.1).len() as int) =~= w.skip(j));
        lemma_prefix_parts(seq![','], enc_entries(rest), w.skip(j));
        lemma_prefix_index(seq![','], w.skip(j), 0);
        assert(w.skip(j)[0] == ',');
        assert(w[j] == ',');
        assert(j < w.len());
        assert(w.skip(j).skip(1) =~= w.skip(j + 1));
        assert(j + 1 + enc_entries(rest).len() == i + enc_entries(es).len());
        lemma_parse_entries_enc(w, rest, j + 1);
        assert(seq![e0] + rest =~= es);
    }
}

/// Writing the snapshot and reading it back yields the same entries, in
/// the same order: the codec loses nothing.
pub proof fn lemma_snapshot_round_trip(es: Seq<(Seq<char>, Seq<char>)>)
    ensures
        parse_doc(enc_doc(es)) == Some(es),
{
    let w = enc_doc(es);
    if es.len() == 0 {
        assert(enc_entries(es) =~= Seq::<char>::empty());
        assert(w =~= seq!['{', '}']);
        assert(w.len() == 2 && w[0] == '{' && w[1] == '}');
        assert(es =~= Seq::<(Seq<char>, Seq<char>)>::empty());
    } else {
        assert(enc_entry(es[0].0, es[0].1).len() >= 5);
        assert(enc_entries(es).len() >= 5) by {
            if es.len() > 1 {
            }
        }
        assert(w.len() == 2 + enc_entries(es).len());
        assert(w[0] == '{');
        assert(w[w.len() - 1] == '}');
        assert(enc_entries(es).is_prefix_of(w.skip(1))) by {
            assert(w.skip(1).subrange(0, enc_entries(es).len() as int) =~= enc_entries(es));
        }
        assert(w[1 + enc_entries(es).len() as int] == '}');
        lemma_parse_entries_enc(w, es, 1);
    }
}

// ---------------------------------------------------------------------------
// Executable encoder and parser, each exact against the spec codec.
// ---------------------------------------------------------------------------
/// The entry list a vector of character pairs denotes.
pub open spec fn views_of(es: Seq<(Vec<char>, Vec<char>)>) -> Seq<(Seq<char>, Seq<char>)> {
    es.map_values(|p: (Vec<char>, Vec<char>)| (p.0@, p.1@))
}

proof fn lemma_esc_snoc(a: Seq<char>, c: char)
    ensures
        esc(a.push(c)) == esc(a) + esc_char(c),
    decreases a.len(),
{
    if a.len() == 0 {
        assert(a.push(c)[0] == c);
        assert(a.push(c).skip(1) =~= Seq::<char>::empty());
        assert(esc(a.push(c)) == esc_char(c) + esc(Seq::<char>::empty()));
        assert(esc_char(c) + esc(Seq::<char>::empty()) =~= esc_char(c));
        assert(esc(a) + esc_char(c) =~= esc_char(c));
    } else {
        assert(a.push(c).skip(1) =~= a.skip(1).push(c));
        lemma_esc_snoc(a.skip(1), c);
        assert(esc(a.push(c)) == esc_char(a[0]) + (esc(a.skip(1)) + esc_char(c)));
        assert(esc_char(a[0]) + (esc(a.skip(1)) + esc_char(c)) =~= (esc_char(a[0]) + esc(
            a.skip(1),
        )) + esc_char(c));
    }
}

fn esc_push(out: &mut Vec<char>, s: &Vec<char>)
    ensures
        final(out)@ == old(out)@ + esc(s@),
{
    let mut i: usize = 0;
    while i < s.len()
        invariant
            0 <= i <= s@.len(),
            out@ == old(out)@ + esc(s@.take(i as int)),
        decreases s@.len() - i,
    {
        let c = s[i];
        if c == '"' || c == '\\' {
            out.push('\\');
            out.push(c);
        } else {
            out.push(c);
        }
        proof {
            assert(s@.take(i + 1) =~= s@.take(i as int).push(s@[i as int]));
            lemma_esc_snoc(s@.take(i as int), s@[i as int]);
            assert(out@ =~= old(out)@ + esc(s@.take(i + 1)));
        }
        i += 1;
    }
    proof {
        assert(s@.take(s@.len() as int) =~= s@);
    }
}

proof fn lemma_enc_entries_snoc(a: Seq<(Seq<char>, Seq<char>)>, e: (Seq<char>, Seq<char>))
    ensures
        a.len() == 0 ==> enc_entries(a.push(e)) == enc_entry(e.0, e.1),
        a.len() > 0 ==> enc_entries(a.push(e)) == enc_entries(a) + seq![','] + enc_entry(
            e.0,
            e.1,
        ),
    decreases a.len(),
{
    if a.len() == 0 {
        assert(a.push(e)[0] == e);
    } else {
        assert(a.push(e).skip(1) =~= a.skip(1).push(e));
        lemma_enc_entries_snoc(a.skip(1), e);
        let e0 = a[0];
        assert(a.push(e)[0] == e0);
        if a.len() == 1 {
            assert(enc_entries(a.push(e)) == enc_entry(e0.0, e0.1) + seq![','] + enc_entries(
                a.skip(1).push(e),
            ));
            assert(enc_entries(a.skip(1).push(e)) == enc_entry(e.0, e.1));
            assert(enc_entries(a) == enc_entry(e0.0, e0.1));
            assert(enc_entry(e0.0, e0.1) + seq![','] + enc_entry(e.0, e.1) =~= enc_entries(a)
                + seq![','] + enc_entry(e.0, e.1));
        } else {
            assert(enc_entries(a.push(e)) == enc_entry(e0.0, e0.1) + seq![','] + enc_entries(
                a.skip(1).push(e),
            ));
            assert(enc_entries(a.skip(1).push(e)) == enc_entries(a.skip(1)) + seq![',']
                + enc_entry(e.0, e.1));
            assert(enc_entry(e0.0, e0.1) + seq![','] + (enc_entries(a.skip(1)) + seq![',']
                + enc_entry(e.0, e.1)) =~= (enc_entry(e0.0, e0.1) + seq![','] + enc_entries(
                a.skip(1),
            )) + seq![','] + enc_entry(e.0, e.1));
        }
    }
}

/// Write the snapshot document for a list of key/value strings.
pub fn encode_snapshot_chars(es: &Vec<(Vec<char>, Vec<char>)>) -> (r: Vec<char>)
    ensures
        r@ == enc_doc(views_of(es@)),
{
    let ghost vs: Seq<(Seq<char>, Seq<char>)> = views_of(es@);
    let mut out: Vec<char> = Vec::new();
    out.push('{');
    let mut i: usize = 0;
    while i < es.len()
        invariant
            0 <= i <= es@.len(),
            vs == views_of(es@),
            vs.len() == es@.len(),
            out@ == seq!['{'] + enc_entries(vs.take(i as int)),
        decreases es@.len() - i,
    {
        let ghost pre: Seq<char> = out@;
        if i > 0 {
            out.push(',');
        }
        out.push('"');
        esc_push(&mut out, &es[i].0);
        out.push('"');
        out.push(':');
        out.push('"');
        esc_push(&mut out, &es[i].1);
        out.push('"');
        proof {
            assert(vs[i as int] == (es@[i as int].0@, es@[i as int].1@));
            assert(vs.take(i + 1) =~= vs.take(i as int).push(vs[i as int]));
            lemma_enc_entries_snoc(vs.take(i as int), vs[i as int]);
            if i > 0 {
                assert(out@ =~= pre + seq![','] + enc_entry(vs[i as int].0, vs[i as int].1));
                assert(out@ =~= seq!['{'] + enc_entries(vs.take(i + 1)));
            } else {
                assert(vs.take(0int) =~= Seq::<(Seq<char>, Seq<char>)>::empty());
                assert(out@ =~= pre + enc_entry(vs[i as int].0, vs[i as int].1));
                assert(out@ =~= seq!['{'] + enc_entries(vs.take(i + 1)));
            }
        }
        i += 1;
    }
    out.push('}');
    proof {
        assert(vs.take(vs.len() as int) =~= vs);
        assert(out@ =~= enc_doc(vs));
    }
    out
}

/// Read a quoted string's body, exactly as the spec parser does.
pub fn parse_string_exec(w: &Vec<char>, i: usize) -> (r: Option<(Vec<char>, usize)>)
    ensures
        r matches Some(p) ==> parse_string(w@, i as int) == Some((p.0@, p.1 as int)),
        r is None ==> parse_string(w@, i as int) is None,
    decreases w@.len() - i,
{
    if i >= w.len() {
        return None;
    }
    let c = w[i];
    if c == '"' {
        Some((Vec::new(), i + 1))
    } else if c == '\\' {
        if i + 1 < w.len() && (w[i + 1] == '"' || w[i + 1] == '\\') {
            match parse_string_exec(w, i + 2) {
                Some((t, j)) => {
                    let ghost tpre: Seq<char> = t@;
                    let mut t2 = t;
                    t2.insert(0, w[i + 1]);
                    proof {
                        assert(t2@ =~= seq![w@[i + 1]] + tpre);
                    }
                    Some((t2, j))
                },
                None => None,
            }
        } else {
            None
        }
    } else {
        match parse_string_exec(w, i + 1) {
            Some((t, j)) => {
                let ghost tpre: Seq<char> = t@;
                let mut t2 = t;
                t2.insert(0, c);
                proof {
                    assert(t2@ =~= seq![w@[i as int]] + tpre);
                }
                Some((t2, j))
            },
            None => None,
        }
    }
}

/// Read one member, exactly as the spec parser does.
pub fn parse_entry_exec(w: &Vec<char>, i: usize) -> (r: Option<((Vec<char>, Vec<char>), usize)>)
    ensures
        r matches Some(p) ==> parse_entry(w@, i as int) == Some(
            (((p.0).0@, (p.0).1@), p.1 as int),
        ),
        r is None ==> parse_entry(w@, i as int) is None,
{
    if i < w.len() && w[i] == '"' {
        match parse_string_exec(w, i + 1) {
            Some((k, j)) => {
                proof {
                    lemma_parse_string_bounds(w@, i as int + 1);
                }
                if j < w.len() && w[j] == ':' && j + 1 < w.len() && w[j + 1] == '"' {
                    match parse_string_exec(w, j + 2) {
                        Some((v, m)) => Some(((k, v), m)),
                        None => None,
                    }
                } else {
                    None
                }
            },
            None => None,
        }
    } else {
        None
    }
}

/// Read the members of the object, exactly as the spec parser does.
pub fn parse_entries_exec(w: &Vec<char>, i: usize) -> (r: Option<
    (Vec<(Vec<char>, Vec<char>)>, usize),
>)
    ensures
        r matches Some(p) ==> parse_entries(w@, i as int) == Some((views_of(p.0@), p.1 as int)),
        r is None ==> parse_entries(w@, i as int) is None,
    decreases w@.len() - i,
{
    match parse_entry_exec(w, i) {
        Some((kv, j)) => {
            proof {
                lemma_parse_entry_bounds(w@, i as int);
            }
            if j < w.len() && w[j] == ',' {
                match parse_entries_exec(w, j + 1) {
                    Some((rest, m)) => {
                        let ghost rpre: Seq<(Vec<char>, Vec<char>)> = rest@;
                        let ghost kvv: (Seq<char>, Seq<char>) = (kv.0@, kv.1@);
                        let mut rest2 = rest;
                        rest2.insert(0, kv);
                        proof {
                            assert(views_of(rest2@) =~= seq![kvv] + views_of(rpre));
                        }
                        Some((rest2, m))
                    },
                    None => None,
                }
            } else {
                let ghost kvv: (Seq<char>, Seq<char>) = (kv.0@, kv.1@);
                let mut one: Vec<(Vec<char>, Vec<char>)> = Vec::new();
                one.push(kv);
                proof {
                    assert(views_of(one@) =~= seq![kvv]);
                }
                Some((one, j))
            }
        },
        None => None,
    }
}

/// Read a whole snapshot document, exactly as the spec parser does.
pub fn parse_doc_exec(w: &Vec<char>) -> (r: Option<Vec<(Vec<char>, Vec<char>)>>)
    ensures
        r matches Some(es) ==> parse_doc(w@) == Some(views_of(es@)),
        r is None ==> parse_doc(w@) is None,
{
    if w.len() >= 2 && w[0] == '{' {
        if w.len() == 2 && w[1] == '}' {
            let empty: Vec<(Vec<char>, Vec<char>)> = Vec::new();
            proof {
                assert(views_of(empty@) =~= Seq::<(Seq<char>, Seq<char>)>::empty());
            }
            Some(empty)
        } else {
            match parse_entries_exec(w, 1) {
                Some((es, j)) => if j == w.len() - 1 && w[j] == '}' {
                    Some(es)
                } else {
                    None
                },
                None => None,
            }
        }
    } else {
        None
    }
}

// ---------------------------------------------------------------------------
// Persisting and reloading a whole store.
// ---------------------------------------------------------------------------
/// The key/value strings a store is written as: each feed URL beside the
/// RFC 3339 rendering of its watermark.
pub open spec fn snapshot_entries_of(st: Store) -> Seq<(Seq<char>, Seq<char>)> {
    st.entries@.map_values(|e: (String, Timestamp)| (e.0@, rfc3339_text(e.1.secs)))
}

/// Every value of a parsed snapshot is a well-formed RFC 3339 date.
pub open spec fn dates_ok(es: Seq<(Seq<char>, Seq<char>)>) -> bool {
    forall|i: int| 0 <= i < es.len() ==> rfc3339_secs((#[trigger] es[i]).1) is Some
}

/// No two members of a parsed snapshot share a key.
pub open spec fn snap_keys_unique(es: Seq<(Seq<char>, Seq<char>)>) -> bool {
    forall|i: int, j: int|
        0 <= i < es.len() && 0 <= j < es.len() && i != j ==> (#[trigger] es[i]).0 != (
        #[trigger] es[j]).0
}

/// Render the whole store as one snapshot document: it succeeds if and
/// only if every watermark lies in the four-digit-year range that RFC
/// 3339 text carries. Reading the text back recovers every entry: with
/// `load_snapshot` this is the persist/reload identity.
pub fn save_snapshot(store: &Store) -> (r: Option<String>)
    ensures
        r is Some <==> forall|i: int|
            0 <= i < store.entries@.len() ==> rfc3339_in_range(
                (#[trigger] store.entries@[i]).1.secs,
            ),
        r matches Some(s) ==> s@ == enc_doc(snapshot_entries_of(*store)),
        r matches Some(s) ==> parse_doc(s@) == Some(snapshot_entries_of(*store)),
        r is Some ==> forall|i: int|
            0 <= i < store.entries@.len() ==> rfc3339_secs(
                #[trigger] snapshot_entries_of(*store)[i].1,
            ) == Some(store.entries@[i].1.secs),
{
    let ghost vs: Seq<(Seq<char>, Seq<char>)> = snapshot_entries_of(*store);
    let mut es: Vec<(Vec<char>, Vec<char>)> = Vec::new();
    let mut idx: usize = 0;
    while idx < store.entries.len()
        invariant
            0 <= idx <= store.entries@.len(),
            vs == snapshot_entries_of(*store),
            vs.len() == store.entries@.len(),
            views_of(es@) == vs.take(idx as int),
            forall|i: int|
                0 <= i < idx ==> rfc3339_in_range((#[trigger] store.entries@[i]).1.secs),
            forall|i: int|
                0 <= i < idx ==> rfc3339_secs(#[trigger] vs[i].1) == Some(
                    store.entries@[i].1.secs,
                ),
        decreases store.entries@.len() - idx,
    {
        let t = store.entries[idx].1;
        if t.secs < -62167219200 || t.secs > 253402300799 {
            proof {
                assert(!rfc3339_in_range(store.entries@[idx as int].1.secs));
            }
            return None;
        }
        let txt = fmt_rfc3339(t);
        let kc = str_to_chars(store.entries[idx].0.as_str());
        let tc = str_to_chars(txt.as_str());
        es.push((kc, tc));
        proof {
            assert(vs[idx as int] == (
                store.entries@[idx as int].0@,
                rfc3339_text(store.entries@[idx as int].1.secs),
            ));
            assert(views_of(es@) =~= vs.take(idx as int).push(vs[idx as int]));
            assert(vs.take(idx + 1) =~= vs.take(idx as int).push(vs[idx as int]));
        }
        idx += 1;
    }
    proof {
        assert(vs.take(vs.len() as int) =~= vs);
    }
    let chars = encode_snapshot_chars(&es);
    let out = chars_to_string(&chars);
    proof {
        lemma_snapshot_round_trip(vs);
    }
    Some(out)
}

/// Read a snapshot document back into a store. `None` exactly when the
/// text does not parse, some date is not well formed, or a feed appears
/// twice: a corrupt snapshot. Otherwise the store holds the parsed
/// entries, in order.
pub fn load_snapshot(s: &str) -> (r: Option<Store>)
    ensures
        parse_doc(s@) is None ==> r is None,
        parse_doc(s@) matches Some(es) ==> ((r is Some <==> dates_ok(es) && snap_keys_unique(es))
            && (r matches Some(st) ==> st.wf() && st.entries@.len() == es.len() && forall|i: int|
            0 <= i < es.len() ==> (#[trigger] st.entries@[i]).0@ == es[i].0 && Some(
                st.entries@[i].1.secs,
            ) == rfc3339_secs(es[i].1))),
{
    let chars = str_to_chars(s);
    match parse_doc_exec(&chars) {
        None => None,
        Some(parsed) => {
            let ghost es: Seq<(Seq<char>, Seq<char>)> = views_of(parsed@);
            let mut entries: Vec<(String, Timestamp)> = Vec::new();
            let mut idx: usize = 0;
            while idx < parsed.len()
                invariant
                    0 <= idx <= parsed@.len(),
                    parse_doc(s@) == Some(es),
                    es == views_of(parsed@),
                    es.len() == parsed@.len(),
                    entries@.len() == idx,
                    forall|i: int|
                        0 <= i < idx ==> (#[trigger] entries@[i]).0@ == es[i].0 && Some(
                            entries@[i].1.secs,
                        ) == rfc3339_secs(es[i].1),
                    forall|i: int, j: int|
                        0 <= i < idx && 0 <= j < idx && i != j ==> es[i].0 != es[j].0,
                decreases parsed@.len() - idx,
            {
                proof {
                    assert(es[idx as int] == (parsed@[idx as int].0@, parsed@[idx as int].1@));
                }
                let key = chars_to_string(&parsed[idx].0);
                let mut k: usize = 0;
                while k < entries.len()
                    invariant
                        0 <= k <= entries@.len(),
                        parse_doc(s@) == Some(es),
                        entries@.len() == idx < es.len(),
                        key@ == es[idx as int].0,
                        forall|i: int|
                            0 <= i < idx ==> (#[trigger] entries@[i]).0@ == es[i].0,
                        forall|i: int| 0 <= i < k ==> (#[trigger] entries@[i]).0@ != key@,
                    decreases entries@.len() - k,
                {
                    if entries[k].0 == key {
                        proof {
                            assert(es[k as int].0 == es[idx as int].0);
                            assert(!snap_keys_unique(es));
                        }
                        return None;
                    }
                    k += 1;
                }
                let val = chars_to_string(&parsed[idx].1);
                let ghost pre_entries: Seq<(String, Timestamp)> = entries@;
                match parse_rfc3339(val.as_str()) {
                    None => {
                        proof {
                            assert(val@ == es[idx as int].1);
                            assert(rfc3339_secs(es[idx as int].1) is None);
                            assert(!dates_ok(es));
                        }
                        return None;
                    },
                    Some(t) => {
                        entries.push((key, t));
                    },
                }
                proof {
                    assert(forall|i: int|
                        0 <= i < idx ==> #[trigger] entries@[i] == pre_entries[i]);
                    assert(entries@[idx as int].0@ == es[idx as int].0);
                    assert forall|i: int, j: int|
                        0 <= i < idx + 1 && 0 <= j < idx + 1 && i != j implies es[i].0
                        != es[j].0 by {
                        if j == idx as int {
                            assert(pre_entries[i].0@ != key@);
                        } else if i == idx as int {
                            assert(pre_entries[j].0@ != key@);
                        }
                    }
                }
                idx += 1;
            }
            proof {
                assert forall|i: int|
                    0 <= i < es.len() implies rfc3339_secs((#[trigger] es[i]).1) is Some by {
                    assert((entries@[i]).0@ == es[i].0 && Some(entries@[i].1.secs)
                        == rfc3339_secs(es[i].1));
                }
                assert(dates_ok(es));
                assert(snap_keys_unique(es));
            }
            let st = Store { entries };
            proof {
                assert forall|i: int, j: int|
                    0 <= i < st.entries@.len() && 0 <= j < st.entries@.len() && i
                        != j implies (#[trigger] st.entries@[i]).0@ != (
                #[trigger] st.entries@[j]).0@ by {
                    assert(st.entries@[i].0@ == es[i].0);
                    assert(st.entries@[j].0@ == es[j].0);
                }
            }
            Some(st)
        },
    }
}

} // verus!
