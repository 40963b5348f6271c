use vstd::prelude::*;
use crate::store::clone_string;
use crate::textutil::{str_to_chars, chars_to_string};
use vstd::string::StringExecFns;

verus! {

// ---------------------------------------------------------------------------
// Icon resolution: pick a favicon-looking candidate URL (or the fixed
// default), and derive the cache path it is stored under. The cache is
// keyed by the selected icon URL, for both the existence check and the
// written file, so that a later resolution of the same link finds what an
// earlier one wrote. Whether the path already exists on disk is the
// caller's to answer; the decision taken from that answer is made here.
// ---------------------------------------------------------------------------
/// The fixed icon used when no candidate looks like a favicon.
pub open spec fn default_icon_url() -> Seq<char> {
    "https://www.mozilla.org/media/img/favicons/firefox/browser/favicon.f093404c0135.ico"@
}

/// Whether `n` occurs in `h` starting at `i`.
pub open spec fn contains_at(h: Seq<char>, n: Seq<char>, i: int) -> bool {
    0 <= i && i + n.len() <= h.len() && h.subrange(i, i + n.len() as int) == n
}

/// Whether `n` occurs anywhere in `h`.
pub open spec fn contains_seq(h: Seq<char>, n: Seq<char>) -> bool {
    exists|i: int| contains_at(h, n, i)
}

/// The needle the candidate filter looks for.
pub open spec fn favicon_needle() -> Seq<char> {
    seq!['f', 'a', 'v', 'i', 'c', 'o', 'n']
}

/// The first candidate whose URL contains "favicon", in the order the
/// extractor returned them.
pub open spec fn first_favicon(cands: Seq<Seq<char>>) -> Option<Seq<char>>
    decreases cands.len(),
{
    if cands.len() == 0 {
        None
    } else if contains_seq(cands[0], favicon_needle()) {
        Some(cands[0])
    } else {
        first_favicon(cands.skip(1))
    }
}

/// The URL the resolver settles on for a candidate list.
pub open spec fn selected_icon(cands: Seq<Seq<char>>) -> Seq<char> {
    match first_favicon(cands) {
        Some(u) => u,
        None => default_icon_url(),
    }
}

/// The views of a list of candidate strings.
pub open spec fn cand_views(cands: Seq<String>) -> Seq<Seq<char>> {
    cands.map_values(|s: String| s@)
}

/// When no candidate looks like a favicon — the list being empty included —
/// the resolver settles on the fixed default, and raises no error.
pub proof fn lemma_no_favicon_gives_default(cands: Seq<Seq<char>>)
    requires
        forall|i: int| 0 <= i < cands.len() ==> !contains_seq(#[trigger] cands[i], favicon_needle()),
    ensures
        selected_icon(cands) == default_icon_url(),
    decreases cands.len(),
{
    if cands.len() > 0 {
        assert(!contains_seq(cands[0], favicon_needle()));
        assert(forall|i: int|
            0 <= i < cands.skip(1).len() ==> #[trigger] cands.skip(1)[i] == cands[i + 1]);
        lemma_no_favicon_gives_default(cands.skip(1));
    }
}

/// Whether a string holds "favicon" anywhere.
pub fn contains_favicon(s: &str) -> (r: bool)
    ensures
        r == contains_seq(s@, favicon_needle()),
{
    let h = str_to_chars(s);
    let n = h.len();
    if n < 7 {
        proof {
            assert(forall|i: int| !contains_at(s@, favicon_needle(), i));
        }
        return false;
    }
    let mut i: usize = 0;
    while i <= n - 7
        invariant
            7 <= n == s@.len(),
            h@ == s@,
            0 <= i <= n - 7 + 1,
            forall|q: int| 0 <= q < i ==> !contains_at(s@, favicon_needle(), q),
        decreases n - i,
    {
        if h[i] == 'f' && h[i + 1] == 'a' && h[i + 2] == 'v' && h[i + 3] == 'i' && h[i + 4] == 'c'
            && h[i + 5] == 'o' && h[i + 6] == 'n' {
            proof {
                assert(s@.subrange(i as int, i + 7) =~= favicon_needle());
                assert(contains_at(s@, favicon_needle(), i as int));
            }
            return true;
        }
        proof {
            assert(!contains_at(s@, favicon_needle(), i as int)) by {
                if contains_at(s@, favicon_needle(), i as int) {
                    assert(s@.subrange(i as int, i + 7)[0] == s@[i as int]);
                    assert(s@.subrange(i as int, i + 7)[1] == s@[i + 1]);
                    assert(s@.subrange(i as int, i + 7)[2] == s@[i + 2]);
                    assert(s@.subrange(i as int, i + 7)[3] == s@[i + 3]);
                    assert(s@.subrange(i as int, i + 7)[4] == s@[i + 4]);
                    assert(s@.subrange(i as int, i + 7)[5] == s@[i + 5]);
                    assert(s@.subrange(i as int, i + 7)[6] == s@[i + 6]);
                }
            }
        }
        i += 1;
    }
    proof {
        assert forall|q: int| !contains_at(s@, favicon_needle(), q) by {
            if 0 <= q && q + 7 <= s@.len() {
                assert(q < i);
            }
        }
    }
    false
}

/// The candidate the resolver uses: the first whose URL contains
/// "favicon", or the fixed default when none does or the list is empty.
pub fn select_icon(candidates: &Vec<String>) -> (r: String)
    ensures
        r@ == selected_icon(cand_views(candidates@)),
{
    let ghost vs: Seq<Seq<char>> = cand_views(candidates@);
    proof {
        assert(vs.skip(0int) =~= vs);
    }
    let mut i: usize = 0;
    while i < candidates.len()
        invariant
            vs == cand_views(candidates@),
            vs.len() == candidates@.len(),
            0 <= i <= candidates@.len(),
            first_favicon(vs) == first_favicon(vs.skip(i as int)),
        decreases candidates@.len() - i,
    {
        let c = &candidates[i];
        proof {
            assert(vs.skip(i as int)[0] == vs[i as int]);
            assert(vs[i as int] == candidates@[i as int]@);
            assert(vs.skip(i as int).skip(1) =~= vs.skip(i + 1));
        }
        if contains_favicon(c.as_str()) {
            return clone_string(c);
        }
        i += 1;
    }
    proof {
        assert(vs.skip(vs.len() as int) =~= Seq::<Seq<char>>::empty());
    }
    String::from_str(
        "https://www.mozilla.org/media/img/favicons/firefox/browser/favicon.f093404c0135.ico",
    )
}

/// A slash becomes an underscore in a cache key.
pub open spec fn slash_map(c: char) -> char {
    if c == '/' {
        '_'
    } else {
        c
    }
}

/// The needle removed from cache keys.
pub open spec fn http_needle() -> Seq<char> {
    seq!['h', 't', 't', 'p']
}

/// Remove every occurrence of "http", scanning left to right.
pub open spec fn remove_http(s: Seq<char>) -> Seq<char>
    decreases s.len(),
{
    if s.len() >= 4 && s.subrange(0, 4) == http_needle() {
        remove_http(s.skip(4))
    } else if s.len() == 0 {
        Seq::empty()
    } else {
        seq![s[0]] + remove_http(s.skip(1))
    }
}

/// The cache key a URL is stored under: slashes become underscores and
/// every "http" is dropped.
pub open spec fn cache_key_spec(s: Seq<char>) -> Seq<char> {
    remove_http(s.map_values(|c: char| slash_map(c)))
}

/// The file name (relative to the cache directory) a URL's icon is kept
/// under.
pub fn cache_key(url: &str) -> (r: String)
    ensures
        r@ == cache_key_spec(url@),
{
    let chars = str_to_chars(url);
    let mut mapped: Vec<char> = Vec::new();
    let mut i: usize = 0;
    while i < chars.len()
        invariant
            chars@ == url@,
            0 <= i <= chars@.len(),
            mapped@ == chars@.take(i as int).map_values(|c: char| slash_map(c)),
        decreases chars@.len() - i,
    {
        let c = chars[i];
        if c == '/' {
            mapped.push('_');
        } else {
            mapped.push(c);
        }
        proof {
            assert(mapped@ =~= chars@.take(i + 1).map_values(|c: char| slash_map(c)));
        }
        i += 1;
    }
    proof {
        assert(chars@.take(chars@.len() as int) =~= chars@);
    }
    let v = mapped;
    let n = v.len();
    let mut out: Vec<char> = Vec::new();
    proof {
        assert(v@.skip(0int) =~= v@);
    }
    let mut j: usize = 0;
    while j < n
        invariant
            n == v@.len(),
            0 <= j <= n,
            remove_http(v@) == out@ + remove_http(v@.skip(j as int)),
        decreases n - j,
    {
        let ghost tail: Seq<char> = v@.skip(j as int);
        if n >= 4 && j <= n - 4 && v[j] == 'h' && v[j + 1] == 't' && v[j + 2] == 't' && v[j + 3]
            == 'p' {
            proof {
                assert(tail.subrange(0, 4) =~= http_needle());
                assert(tail.skip(4) =~= v@.skip(j + 4));
                assert(remove_http(tail) == remove_http(v@.skip(j + 4)));
            }
            j += 4;
        } else {
            proof {
                if tail.len() >= 4 && tail.subrange(0, 4) == http_needle() {
                    assert(tail.subrange(0, 4)[0] == v@[j as int]);
                    assert(tail.subrange(0, 4)[1] == v@[j + 1]);
                    assert(tail.subrange(0, 4)[2] == v@[j + 2]);
                    assert(tail.subrange(0, 4)[3] == v@[j + 3]);
                    assert(false);
                }
                assert(tail[0] == v@[j as int]);
                assert(tail.skip(1) =~= v@.skip(j + 1));
                assert(remove_http(tail) == seq![v@[j as int]] + remove_http(v@.skip(j + 1)));
            }
            out.push(v[j]);
            j += 1;
        }
    }
    proof {
        assert(v@.skip(n as int) =~= Seq::<char>::empty());
        assert(out@ =~= remove_http(v@));
    }
    chars_to_string(&out)
}

/// What the resolver asks its caller to do for one item.
#[derive(Debug)]
pub enum IconPlan {
    /// The icon is already in the cache at this key.
    Cached { key: String },
    /// Fetch the icon from `url` and store the converted image under `key`.
    Download { url: String, key: String },
}

/// Decide how to resolve an icon, given the extractor's candidates and
/// whether the selected icon's cache key already names a file. A cache hit
/// never asks for a download; a miss asks for exactly one, stored under
/// the same key a later resolution will check.
pub fn plan_icon(candidates: &Vec<String>, cache_hit: bool) -> (r: IconPlan)
    ensures
        cache_hit ==> (r matches IconPlan::Cached { key } && key@ == cache_key_spec(
            selected_icon(cand_views(candidates@)),
        )),
        !cache_hit ==> (r matches IconPlan::Download { url, key } && url@ == selected_icon(
            cand_views(candidates@),
        ) && key@ == cache_key_spec(selected_icon(cand_views(candidates@)))),
{
    let url = select_icon(candidates);
    let key = cache_key(url.as_str());
    if cache_hit {
        IconPlan::Cached { key }
    } else {
        IconPlan::Download { url, key }
    }
}

/// What the icon container decoder produces for given bytes: the first
/// embedded image, re-encoded as PNG; `None` when the bytes do not decode
/// or hold no image.
pub uninterp spec fn ico_first_png(bytes: Seq<u8>) -> Option<Seq<u8>>;

/// The little-endian number held by two bytes.
pub open spec fn le16(b: Seq<u8>, i: int) -> int {
    b[i] + 256 * b[i + 1]
}

/// The little-endian number held by four bytes.
pub open spec fn le32(b: Seq<u8>, i: int) -> int {
    b[i] + 256 * (b[i + 1] + 256 * (b[i + 2] + 256 * b[i + 3]))
}

/// Whether decoding the container's first image stays inside the
/// decoder's arithmetic. The decoder reads the first directory entry's
/// data; a BMP image there whose header passes the decoder's own checks
/// (header length 40, positive width, even stored height giving a
/// positive half) but claims a width or half-height beyond 4096 drives
/// its 32-bit pixel arithmetic past overflow, so exactly those bytes are
/// ruled out; everything else the decoder either rejects or handles.
/// Width and stored height are signed 32-bit fields: a value of at least
/// 0x80000000 here is a negative one there, which the decoder rejects.
pub open spec fn ico_first_entry_safe(b: Seq<u8>) -> bool {
    if b.len() < 6 {
        true
    } else if le16(b, 4) == 0 {
        true
    } else if b.len() < 22 {
        true
    } else {
        let size = le32(b, 14);
        let off = le32(b, 18);
        if off + size > b.len() {
            true
        } else if size >= 4 && b[off] == 0x89 && b[off + 1] == 0x50 && b[off + 2] == 0x4e && b[off
            + 3] == 0x47 {
            true
        } else if size < 12 {
            true
        } else if le32(b, off) != 40 {
            true
        } else {
            let w = le32(b, off + 4);
            let hs = le32(b, off + 8);
            if w == 0 || w >= 0x80000000 {
                true
            } else if hs % 2 != 0 {
                true
            } else if hs == 0 || hs >= 0x80000000 {
                true
            } else {
                w <= 4096 && hs / 2 <= 4096
            }
        }
    }
}

fn read_le16(b: &Vec<u8>, i: usize) -> (r: u64)
    requires
        i + 2 <= b@.len() <= usize::MAX,
    ensures
        r == le16(b@, i as int),
{
    (b[i] as u64) + 256 * (b[i + 1] as u64)
}

fn read_le32(b: &Vec<u8>, i: usize) -> (r: u64)
    requires
        i + 4 <= b@.len() <= usize::MAX,
    ensures
        r == le32(b@, i as int),
{
    (b[i] as u64) + 256 * ((b[i + 1] as u64) + 256 * ((b[i + 2] as u64) + 256 * (b[i + 3] as u64)))
}

/// Decide `ico_first_entry_safe` for given bytes.
fn ico_safe_check(b: &Vec<u8>) -> (r: bool)
    ensures
        r == ico_first_entry_safe(b@),
{
    if b.len() < 6 {
        return true;
    }
    if read_le16(b, 4) == 0 {
        return true;
    }
    if b.len() < 22 {
        return true;
    }
    let size = read_le32(b, 14);
    let off = read_le32(b, 18);
    if off + size > b.len() as u64 {
        return true;
    }
    let off = off as usize;
    let size = size as usize;
    if size >= 4 && b[off] == 0x89 && b[off + 1] == 0x50 && b[off + 2] == 0x4e && b[off + 3]
        == 0x47 {
        return true;
    }
    if size < 12 {
        return true;
    }
    if read_le32(b, off) != 40 {
        return true;
    }
    let w = read_le32(b, off + 4);
    let hs = read_le32(b, off + 8);
    if w == 0 || w >= 0x80000000 {
        return true;
    }
    if hs % 2 != 0 {
        return true;
    }
    if hs == 0 || hs >= 0x80000000 {
        return true;
    }
    w <= 4096 && hs / 2 <= 4096
}

/// Relies on the ico crate (`IconDir::read`, `IconDirEntry::decode`,
/// `IconImage::write_png`): decoding a multi-resolution icon container and
/// re-encoding its first image depends on the bytes alone. The decoder's
/// BMP reader multiplies the header's dimensions in 32 bits, so bytes
/// whose first image claims dimensions past that arithmetic are left out
/// by `requires`; `icon_to_png` screens for them first.
#[verifier::external_body]
fn ico_decode_first(bytes: &Vec<u8>) -> (r: Option<Vec<u8>>)
    requires
        ico_first_entry_safe(bytes@),
    ensures
        r matches Some(p) ==> ico_first_png(bytes@) == Some(p@),
        r is None ==> ico_first_png(bytes@) is None,
{
    let dir = match ico::IconDir::read(std::io::Cursor::new(bytes.as_slice())) {
        Ok(d) => d,
        Err(_) => return None,
    };
    let entry = dir.entries().first()?;
    let image = entry.decode().ok()?;
    let mut out: Vec<u8> = Vec::new();
    image.write_png(&mut out).ok()?;
    Some(out)
}

/// The first image of an icon container, re-encoded as PNG. Bytes the
/// decoder cannot handle yield `None`: those it rejects itself, and those
/// whose first image claims dimensions beyond 4096, on which its
/// arithmetic would be unsound.
pub fn icon_to_png(bytes: &Vec<u8>) -> (r: Option<Vec<u8>>)
    ensures
        ico_first_entry_safe(bytes@) ==> (r matches Some(p) ==> ico_first_png(bytes@) == Some(
            p@,
        )),
        ico_first_entry_safe(bytes@) ==> (r is None ==> ico_first_png(bytes@) is None),
        !ico_first_entry_safe(bytes@) ==> r is None,
{
    if ico_safe_check(bytes) {
        ico_decode_first(bytes)
    } else {
        None
    }
}

} // verus!
