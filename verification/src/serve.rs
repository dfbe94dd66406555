//! The API server's decisions: which ids are worth a lookup, how long a
//! response may be cached, page and list sizes, the figures the stats and
//! halving pages derive, and the bookkeeping of their cached histories.
use vstd::prelude::*;
use vstd::arithmetic::power2::pow2;
use vstd::string::StringSliceAdditionalSpecFns;
use vstd::string::StringExecFns;
use vstd::string::StrSliceExecFns;
use crate::text::{decimal, decimal_u128, hex_fixed, hex_fixed_u64, parse_u128, parsed_u128};
use crate::indexer::same_str;

verus! {

pub const FNV_OFFSET_BASIS: u64 = 0xcbf2_9ce4_8422_2325;
pub const FNV_PRIME: u64 = 0x0100_0000_01b3;

/// FNV-1a over the bytes.
pub open spec fn fnv1a(bs: Seq<u8>) -> u64
    decreases bs.len(),
{
    if bs.len() == 0 {
        FNV_OFFSET_BASIS
    } else {
        (fnv1a(bs.drop_last()) ^ (bs.last() as u64)).wrapping_mul(FNV_PRIME)
    }
}

/// A strong ETag: the FNV-1a hash of the contents as 16 lowercase hex
/// digits, in quotes.
pub open spec fn etag_text(bs: Seq<u8>) -> Seq<char> {
    seq!['"'] + hex_fixed(fnv1a(bs) as nat, 16) + seq!['"']
}

/// FNV-1a over the file contents, used as a strong ETag so browsers can
/// revalidate cheaply and still pick up a new build at once.
pub fn etag_of(bytes: &[u8]) -> (s: String)
    ensures
        s@ == etag_text(bytes@),
{
    let mut h: u64 = FNV_OFFSET_BASIS;
    let mut i: usize = 0;
    while i < bytes.len()
        invariant
            i <= bytes@.len(),
            h == fnv1a(bytes@.take(i as int)),
        decreases bytes.len() - i,
    {
        proof {
            assert(bytes@.take(i + 1).drop_last() == bytes@.take(i as int));
        }
        h = h ^ (bytes[i] as u64);
        h = h.wrapping_mul(FNV_PRIME);
        i += 1;
    }
    proof {
        assert(bytes@.take(i as int) == bytes@);
        reveal_strlit("\"");
    }
    let mut s = String::from_str("\"");
    s.append(hex_fixed_u64(h, 16).as_str());
    s.append("\"");
    s
}

pub open spec fn is_lower_hex_byte(b: u8) -> bool {
    (48 <= b <= 57) || (97 <= b <= 102)
}

pub open spec fn is_hex64_text(bs: Seq<u8>) -> bool {
    bs.len() == 64 && forall|i: int| 0 <= i < bs.len() ==> is_lower_hex_byte(#[trigger] bs[i])
}

/// A txid or block hash as the node prints it: 64 lowercase hex digits.
pub fn is_hex64(s: &str) -> (r: bool)
    ensures
        r == is_hex64_text(s.spec_bytes()),
{
    let bs = s.as_bytes();
    if bs.len() != 64 {
        return false;
    }
    let mut i: usize = 0;
    while i < bs.len()
        invariant
            bs@ == s.spec_bytes(),
            i <= bs@.len(),
            forall|j: int| 0 <= j < i ==> is_lower_hex_byte(#[trigger] bs@[j]),
        decreases bs.len() - i,
    {
        let b = bs[i];
        if !((b >= 48 && b <= 57) || (b >= 97 && b <= 102)) {
            return false;
        }
        i += 1;
    }
    true
}

pub open spec fn is_address_text(bs: Seq<u8>) -> bool {
    &&& bs.len() >= 2 && bs[0] == 111 && bs[1] == 49
    &&& 50 <= bs.len() <= 100
    &&& forall|i: int| 0 <= i < bs.len() ==> ((97 <= #[trigger] bs[i] <= 122) || (48 <= bs[i] <= 57))
}

/// A bech32m address as the node prints it: `o1`, then lowercase letters
/// and digits, 50 to 100 characters in all.
pub fn is_address(s: &str) -> (r: bool)
    ensures
        r == is_address_text(s.spec_bytes()),
{
    let bs = s.as_bytes();
    if bs.len() < 2 || bs[0] != 111 || bs[1] != 49 {
        return false;
    }
    if bs.len() < 50 || bs.len() > 100 {
        return false;
    }
    let mut i: usize = 0;
    while i < bs.len()
        invariant
            bs@ == s.spec_bytes(),
            i <= bs@.len(),
            forall|j: int| 0 <= j < i ==> ((97 <= #[trigger] bs@[j] <= 122) || (48 <= bs@[j] <= 57)),
        decreases bs.len() - i,
    {
        let b = bs[i];
        if !((b >= 97 && b <= 122) || (b >= 48 && b <= 57)) {
            return false;
        }
        i += 1;
    }
    true
}

/// Confirmations at which a block can no longer be reorganized away (the
/// protocol's maximum rollback is 17 blocks).
pub const FINAL_CONFIRMATIONS: i64 = 18;

/// A block is final once it has 18 confirmations.
pub fn block_is_final(confirmations: Option<i64>) -> (r: bool)
    ensures
        r == (confirmations matches Some(c) && c >= 18),
{
    match confirmations {
        Some(c) => c >= FINAL_CONFIRMATIONS,
        None => false,
    }
}

/// A transaction is final where its block is canonical and final.
pub fn tx_is_final(canonical: bool, confirmations: Option<i64>) -> (r: bool)
    ensures
        r == (canonical && (confirmations matches Some(c) && c >= 18)),
{
    canonical && block_is_final(confirmations)
}

/// Final history may be cached for an hour, anything that can still change
/// must be re-fetched.
pub fn cache_policy(is_final: bool) -> (s: &'static str)
    ensures
        s@ == (if is_final { "public, max-age=3600"@ } else { "no-cache"@ }),
{
    if is_final { "public, max-age=3600" } else { "no-cache" }
}

/// Fonts and images may sit in caches for a day; everything else of the
/// frontend is revalidated on every load.
pub fn asset_cache_policy(mime_type: &str) -> (s: &'static str)
    ensures
        s@ == (if mime_type@ == "font"@ || mime_type@ == "image"@ { "public, max-age=86400"@ } else { "no-cache"@ }),
{
    if same_str(mime_type, "font") || same_str(mime_type, "image") { "public, max-age=86400" } else { "no-cache" }
}

pub open spec fn clamp_i64(v: i64, lo: i64, hi: i64) -> i64 {
    if v < lo { lo } else if v > hi { hi } else { v }
}

/// How many blocks the block list shows: 25 unless asked, between 1 and 200.
pub fn block_list_limit(limit: Option<i64>) -> (r: i64)
    ensures
        r == clamp_i64(match limit { Some(l) => l, None => 25 }, 1, 200),
{
    let l: i64 = match limit {
        Some(l) => l,
        None => 25,
    };
    if l < 1 { 1 } else if l > 200 { 200 } else { l }
}

/// The address page requested: page 1 unless asked, never below 1; 25 rows
/// unless asked, between 1 and 200.
pub fn address_paging(page: Option<i64>, page_size: Option<i64>) -> (r: (i64, i64))
    ensures
        r.0 == (match page { Some(p) => if p >= 1 { p } else { 1 }, None => 1 }),
        r.1 == clamp_i64(match page_size { Some(s) => s, None => 25 }, 1, 200),
{
    let p: i64 = match page {
        Some(p) => if p >= 1 { p } else { 1 },
        None => 1,
    };
    let size: i64 = match page_size {
        Some(s) => s,
        None => 25,
    };
    (p, if size < 1 { 1 } else if size > 200 { 200 } else { size })
}

/// Unicode White_Space, as `char::is_whitespace` has it.
pub open spec fn is_white_space(c: char) -> bool {
    ||| ('\u{9}' <= c <= '\u{d}')
    ||| c == ' ' || c == '\u{85}' || c == '\u{a0}' || c == '\u{1680}'
    ||| ('\u{2000}' <= c <= '\u{200a}')
    ||| c == '\u{2028}' || c == '\u{2029}' || c == '\u{202f}' || c == '\u{205f}' || c == '\u{3000}'
}

/// `s` with leading and trailing whitespace removed.
pub open spec fn trimmed(s: Seq<char>) -> Seq<char>
    decreases s.len(),
{
    if s.len() > 0 && is_white_space(s[0]) {
        trimmed(s.drop_first())
    } else if s.len() > 0 && is_white_space(s.last()) {
        trimmed(s.drop_last())
    } else {
        s
    }
}

/// `s[a..b]` is one of the comma-separated entries of `s`.
pub open spec fn is_entry(s: Seq<char>, a: int, b: int) -> bool {
    &&& 0 <= a <= b <= s.len()
    &&& (a == 0 || s[a - 1] == ',')
    &&& (b == s.len() || s[b] == ',')
    &&& forall|j: int| a <= j < b ==> s[j] != ','
}

/// Whether an `If-None-Match` header names the ETag: one of its
/// comma-separated entries, trimmed, is the ETag.
pub open spec fn names_etag(header: Seq<char>, etag: Seq<char>) -> bool {
    exists|a: int, b: int| is_entry(header, a, b) && trimmed(header.subrange(a, b)) == etag
}

/// An entry found before `limit`.
pub open spec fn named_before(header: Seq<char>, etag: Seq<char>, limit: int) -> bool {
    exists|a: int, b: int| is_entry(header, a, b) && b < limit && trimmed(header.subrange(a, b)) == etag
}

proof fn lemma_entry_at(header: Seq<char>, etag: Seq<char>, start: int, i: int)
    requires
        0 <= start <= i <= header.len(),
        start == 0 || header[start - 1] == ',',
        i == header.len() || header[i] == ',',
        forall|j: int| start <= j < i ==> header[j] != ',',
    ensures
        is_entry(header, start, i),
        named_before(header, etag, i + 1) == (named_before(header, etag, start)
            || trimmed(header.subrange(start, i)) == etag),
{
    if named_before(header, etag, i + 1) {
        let (a, b) = choose|a: int, b: int| is_entry(header, a, b) && b < i + 1 && trimmed(header.subrange(a, b)) == etag;
        if b >= start {
            if b < i {
                assert(header[b] == ',');
            }
            if a > start {
                assert(header[a - 1] == ',');
            }
            if a < start {
                assert(header[start - 1] == ',');
            }
            assert(a == start && b == i);
        }
    }
    if trimmed(header.subrange(start, i)) == etag {
        assert(is_entry(header, start, i));
    }
}

fn trim_range(s: &str, from: usize, to: usize) -> (r: (usize, usize))
    requires
        from <= to <= s@.len(),
    ensures
        from <= r.0 <= r.1 <= to,
        s@.subrange(r.0 as int, r.1 as int) == trimmed(s@.subrange(from as int, to as int)),
{
    let mut a = from;
    let mut b = to;
    while a < b && is_space_char(s.get_char(a))
        invariant
            from <= a <= b <= to,
            to <= s@.len(),
            trimmed(s@.subrange(a as int, b as int)) == trimmed(s@.subrange(from as int, to as int)),
        decreases b - a,
    {
        proof {
            assert(s@.subrange(a as int, b as int).drop_first() == s@.subrange(a + 1, b as int));
        }
        a += 1;
    }
    while a < b && is_space_char(s.get_char(b - 1))
        invariant
            from <= a <= b <= to,
            to <= s@.len(),
            trimmed(s@.subrange(a as int, b as int)) == trimmed(s@.subrange(from as int, to as int)),
            a < b ==> !is_white_space(s@[a as int]),
        decreases b - a,
    {
        proof {
            assert(s@.subrange(a as int, b as int).drop_last() == s@.subrange(a as int, b - 1));
        }
        b -= 1;
    }
    (a, b)
}

fn is_space_char(c: char) -> (r: bool)
    ensures
        r == is_white_space(c),
{
    ('\u{9}' <= c && c <= '\u{d}') || c == ' ' || c == '\u{85}' || c == '\u{a0}' || c == '\u{1680}'
        || ('\u{2000}' <= c && c <= '\u{200a}') || c == '\u{2028}' || c == '\u{2029}' || c == '\u{202f}'
        || c == '\u{205f}' || c == '\u{3000}'
}

/// Whether a request's `If-None-Match` header names `etag`, so a 304 can
/// answer it.
pub fn etag_matches(header: &str, etag: &str) -> (r: bool)
    ensures
        r == names_etag(header@, etag@),
{
    let n = header.unicode_len();
    let mut start: usize = 0;
    let mut i: usize = 0;
    let mut found = false;
    while i < n
        invariant
            n == header@.len(),
            start <= i <= n,
            start == 0 || header@[start - 1] == ',',
            forall|j: int| start <= j < i ==> header@[j] != ',',
            found == named_before(header@, etag@, start as int),
        decreases n - i,
    {
        if header.get_char(i) == ',' {
            let (a, b) = trim_range(header, start, i);
            let piece = header.substring_char(a, b);
            proof {
                lemma_entry_at(header@, etag@, start as int, i as int);
            }
            if same_str(piece, etag) {
                found = true;
            }
            start = i + 1;
        }
        i += 1;
    }
    let (a, b) = trim_range(header, start, n);
    let piece = header.substring_char(a, b);
    proof {
        lemma_entry_at(header@, etag@, start as int, n as int);
        if names_etag(header@, etag@) {
            let (x, y) = choose|x: int, y: int| is_entry(header@, x, y) && trimmed(header@.subrange(x, y)) == etag@;
            assert(y < n + 1);
        }
    }
    if same_str(piece, etag) {
        found = true;
    }
    found
}

/// Minted and burned totals for the stats page, as decimal text: the burn
/// is everything minted minus the circulating supply (a supply that does
/// not read as a number counts as zero).
pub fn emission_totals(emitted: u128, circulating_supply: &str) -> (r: (String, String))
    ensures
        r.0@ == decimal(emitted as nat),
        r.1@ == decimal(({
            let supply: nat = match parsed_u128(circulating_supply.spec_bytes()) { Some(v) => v as nat, None => 0 };
            if emitted >= supply { (emitted - supply) as nat } else { 0 }
        })),
{
    let supply: u128 = match parse_u128(circulating_supply) {
        Some(v) => v,
        None => 0,
    };
    (decimal_u128(emitted), decimal_u128(emitted.saturating_sub(supply)))
}


/// Headers in the window that decides an expansion.
pub const EXPANSION_WINDOW: u64 = 18;
/// Depth below the tip from which headers are hard-final.
pub const CONSENSUS_FINALITY_DEPTH: u64 = 18;
/// Of the window, this many must qualify (a strict majority).
pub const EXPANSION_WINDOW_REQUIRED: u64 = 10;
/// Initial distance between sampled heights of the live-slot history.
pub const HISTORY_STEP: u64 = 512;
/// The sampled history never holds more points than this.
pub const HISTORY_MAX_POINTS: u64 = 2400;

/// Live slots the state holds at `log_slots`.
pub fn state_capacity(log_slots: u32) -> (r: u64)
    requires
        log_slots < 64,
    ensures
        r == vstd::arithmetic::power2::pow2(log_slots as nat),
{
    proof {
        vstd::bits::lemma_u64_pow2_no_overflow(log_slots as nat);
        vstd::bits::lemma_u64_shl_is_mul(1, log_slots as u64);
    }
    1u64 << (log_slots as u64)
}

/// Occupancy that triggers an expansion: three quarters of the capacity.
pub fn expansion_threshold(capacity: u64) -> (r: u64)
    ensures
        r == capacity / 4 * 3,
{
    capacity / 4 * 3
}

/// The hard-final headers `tip-35 ..= tip-18` that decide whether the
/// child of `tip` expands, if the chain is that long.
pub fn expansion_window(tip: u64) -> (r: Option<(u64, u64)>)
    ensures
        tip >= 35 ==> r == Some(((tip - 35) as u64, (tip - 18) as u64)),
        tip < 35 ==> r is None,
{
    match tip.checked_sub(CONSENSUS_FINALITY_DEPTH) {
        Some(end) => match end.checked_sub(EXPANSION_WINDOW - 1) {
            Some(start) => Some((start, end)),
            None => None,
        },
        None => None,
    }
}

/// A header counts toward an expansion at 75 % occupancy or more.
pub fn header_qualifies(active_slot_count: u64, capacity: u64) -> (r: bool)
    ensures
        r == (crate::fees::sat_mul(active_slot_count as nat, 4) >= crate::fees::sat_mul(capacity as nat, 3)),
{
    crate::fees::saturating_mul_u64(active_slot_count, 4) >= crate::fees::saturating_mul_u64(capacity, 3)
}

/// The sampled `(height, active_slot_count)` history of the halving page,
/// extended as the tip advances.
pub struct StateHistory {
    pub step: u64,
    pub points: Vec<(u64, u64)>,
}

/// The sampling distance for a tip: from `step` on, doubled until the tip
/// spans no more than the maximum number of points.
pub open spec fn scaled_step(step: u64, tip: u64) -> u64
    decreases tip / step,
    when step > 0
{
    if tip / step > HISTORY_MAX_POINTS {
        proof {
            assert(step * 2 <= u64::MAX) by (nonlinear_arith) requires tip / step > 2400, step > 0, tip <= u64::MAX;
            assert(tip / ((step * 2) as u64) < tip / step) by (nonlinear_arith) requires tip / step > 2400, step > 0;
        }
        scaled_step(#[verifier::truncate] ((step * 2) as u64), tip)
    } else {
        step
    }
}

proof fn lemma_scaled_step(step: u64, tip: u64)
    requires
        step > 0,
    ensures
        scaled_step(step, tip) >= step,
        tip / scaled_step(step, tip) <= HISTORY_MAX_POINTS,
    decreases tip / step,
{
    if tip / step > HISTORY_MAX_POINTS {
        assert(step * 2 <= u64::MAX) by (nonlinear_arith) requires tip / step > 2400, step > 0, tip <= u64::MAX;
        assert(tip / ((step * 2) as u64) < tip / step) by (nonlinear_arith) requires tip / step > 2400, step > 0;
        lemma_scaled_step((step * 2) as u64, tip);
    }
}

pub open spec fn on_step(step: u64) -> spec_fn((u64, u64)) -> bool {
    |p: (u64, u64)| p.0 % step == 0
}

/// The sampled heights lie on the history's grid, in ascending order; a
/// history without a grid yet (step 0) holds no points.
pub open spec fn history_well_formed(h: StateHistory) -> bool {
    &&& h.step == 0 ==> h.points@.len() == 0
    &&& h.step > 0 ==> forall|i: int| 0 <= i < h.points@.len() ==> (#[trigger] h.points@[i]).0 % h.step == 0
    &&& forall|i: int, j: int| 0 <= i < j < h.points@.len() ==> h.points@[i].0 < h.points@[j].0
}

proof fn lemma_filter_keeps_ascending(s: Seq<(u64, u64)>, p: spec_fn((u64, u64)) -> bool)
    requires
        forall|i: int, j: int| 0 <= i < j < s.len() ==> s[i].0 < s[j].0,
    ensures
        forall|i: int, j: int| 0 <= i < j < s.filter(p).len() ==> s.filter(p)[i].0 < s.filter(p)[j].0,
    decreases s.len(),
{
    if s.len() > 0 {
        let rest = s.drop_last();
        let x = s.last();
        lemma_filter_keeps_ascending(rest, p);
        assert(rest.push(x) == s);
        rest.lemma_filter_push(x, p);
        if p(x) {
            let f = rest.filter(p);
            assert forall|i: int| 0 <= i < f.len() implies f[i].0 < x.0 by {
                assert(f.contains(f[i]));
                rest.lemma_filter_contains_rev(p, f[i]);
                let k = choose|k: int| 0 <= k < rest.len() && rest[k] == f[i];
                assert(rest[k] == s[k]);
            }
            assert forall|i: int, j: int| 0 <= i < j < f.push(x).len() implies f.push(x)[i].0 < f.push(x)[j].0 by {
                assert(f.push(x)[i] == f[i]);
                if j < f.len() {
                    assert(f.push(x)[j] == f[j]);
                }
            }
        }
    }
}

/// Widens the history's sampling distance to fit the tip (starting at
/// 512 for an empty history) and keeps only the points on the new grid.
pub fn rescale_history(h: &mut StateHistory, tip: u64)
    ensures
        final(h).step == scaled_step(if old(h).step == 0 { 512 } else { old(h).step }, tip),
        final(h).step > 0,
        tip / final(h).step <= HISTORY_MAX_POINTS,
        final(h).points@ == old(h).points@.filter(on_step(final(h).step)),
        history_well_formed(*old(h)) ==> history_well_formed(*final(h)),
{
    if h.step == 0 {
        h.step = HISTORY_STEP;
    }
    let ghost start = h.step;
    proof {
        lemma_scaled_step(start, tip);
    }
    while tip / h.step > HISTORY_MAX_POINTS
        invariant
            h.step > 0,
            h.points@ == old(h).points@,
            scaled_step(h.step, tip) == scaled_step(start, tip),
        decreases tip / h.step,
    {
        proof {
            assert(h.step * 2 <= u64::MAX) by (nonlinear_arith) requires tip / h.step > 2400, h.step > 0, tip <= u64::MAX;
            assert(tip / ((h.step * 2) as u64) < tip / h.step) by (nonlinear_arith) requires tip / h.step > 2400, h.step > 0;
        }
        h.step = h.step * 2;
    }
    let step = h.step;
    let mut kept: Vec<(u64, u64)> = Vec::new();
    let mut i: usize = 0;
    while i < h.points.len()
        invariant
            step == h.step,
            step > 0,
            h.points@ == old(h).points@,
            i <= h.points@.len(),
            kept@ == h.points@.take(i as int).filter(on_step(step)),
        decreases h.points.len() - i,
    {
        let p = h.points[i];
        proof {
            assert(h.points@.take(i + 1).drop_last() == h.points@.take(i as int));
            assert(h.points@.take(i + 1).last() == p);
            reveal_with_fuel(Seq::filter, 1);
        }
        if p.0 % step == 0 {
            kept.push(p);
        }
        i += 1;
    }
    proof {
        assert(h.points@.take(i as int) == h.points@);
        if history_well_formed(*old(h)) {
            lemma_filter_keeps_ascending(old(h).points@, on_step(step));
            assert forall|k: int| 0 <= k < kept@.len() implies (#[trigger] kept@[k]).0 % step == 0 by {
                old(h).points@.lemma_filter_pred(on_step(step), k);
            }
        }
    }
    h.points = kept;
}

/// Records the sample at the next height of the grid.
pub fn add_sample(h: &mut StateHistory, active_slot_count: u64)
    requires
        old(h).step > 0,
        old(h).points@.len() > 0 ==> old(h).points@.last().0 + old(h).step <= u64::MAX,
    ensures
        final(h).step == old(h).step,
        final(h).points@ == old(h).points@.push((next_sample_at(*old(h)), active_slot_count)),
        history_well_formed(*old(h)) ==> history_well_formed(*final(h)),
{
    let height = next_sample_height(h);
    let ghost step = h.step;
    proof {
        if history_well_formed(*h) {
            if h.points@.len() > 0 {
                let last = h.points@.last().0;
                assert(last % h.step == 0);
                assert((last + h.step) % (h.step as int) == 0) by {
                    vstd::arithmetic::div_mod::lemma_mod_adds(last as int, h.step as int, h.step as int);
                    vstd::arithmetic::div_mod::lemma_mod_self_0(h.step as int);
                }
            } else {
                vstd::arithmetic::div_mod::lemma_mod_self_0(h.step as int);
                assert(0int % (h.step as int) == 0);
            }
            assert(height % step == 0);
        }
    }
    h.points.push((height, active_slot_count));
    proof {
        if history_well_formed(*old(h)) {
            assert forall|i: int| 0 <= i < h.points@.len() implies (#[trigger] h.points@[i]).0 % h.step == 0 by {
                if i < old(h).points@.len() {
                    assert(h.points@[i] == old(h).points@[i]);
                }
            }
            assert forall|i: int, j: int| 0 <= i < j < h.points@.len() implies h.points@[i].0 < h.points@[j].0 by {
                assert(h.points@[i] == old(h).points@[i]);
                if j < old(h).points@.len() {
                    assert(h.points@[j] == old(h).points@[j]);
                } else {
                    assert(old(h).points@[i].0 <= old(h).points@.last().0);
                }
            }
        }
    }
}

/// One step past the last point, or genesis.
pub open spec fn next_sample_at(h: StateHistory) -> u64 {
    if h.points@.len() == 0 { 0 } else { (h.points@.last().0 + h.step) as u64 }
}

/// The next height to sample: one step past the last point, or genesis.
pub fn next_sample_height(h: &StateHistory) -> (r: u64)
    requires
        h.points@.len() > 0 ==> h.points@.last().0 + h.step <= u64::MAX,
    ensures
        r == next_sample_at(*h),
{
    if h.points.len() == 0 {
        0
    } else {
        h.points[h.points.len() - 1].0 + h.step
    }
}

/// The history as the halving page shows it: the sampled points, and the
/// tip with its current live-slot count where the last point is not at the
/// tip.
pub fn history_with_tip(points: &Vec<(u64, u64)>, tip: u64, active_slot_count: u64) -> (r: Vec<(u64, u64)>)
    ensures
        points@.len() > 0 && points@.last().0 == tip ==> r@ == points@,
        !(points@.len() > 0 && points@.last().0 == tip) ==> r@ == points@.push((tip, active_slot_count)),
{
    let mut out: Vec<(u64, u64)> = Vec::new();
    let mut i: usize = 0;
    while i < points.len()
        invariant
            i <= points@.len(),
            out@ == points@.take(i as int),
        decreases points.len() - i,
    {
        out.push(points[i]);
        i += 1;
    }
    proof {
        assert(points@.take(i as int) == points@);
    }
    if points.len() == 0 || points[points.len() - 1].0 != tip {
        out.push((tip, active_slot_count));
    }
    out
}

/// One bisection step's probe.
pub fn search_midpoint(a: u64, b: u64) -> (m: u64)
    requires
        a < b,
    ensures
        m == a + (b - a) / 2,
        a <= m < b,
{
    a + (b - a) / 2
}

/// The bracket after probing `mid`: the state size there decides which
/// half holds the first height that reached `level`.
pub open spec fn narrowed(a: u64, b: u64, mid: u64, log_slots_at_mid: u32, level: u32) -> (u64, u64) {
    if log_slots_at_mid >= level { (a, mid) } else { ((mid + 1) as u64, b) }
}

pub fn search_narrow(a: u64, b: u64, mid: u64, log_slots_at_mid: u32, level: u32) -> (r: (u64, u64))
    requires
        a <= mid < b,
    ensures
        r == narrowed(a, b, mid, log_slots_at_mid, level),
{
    if log_slots_at_mid >= level { (a, mid) } else { (mid + 1, b) }
}

/// Every height of `[lo, a)` is below `level`, and `b` is the tip or
/// already at `level`.
pub open spec fn brackets(log_slots: spec_fn(u64) -> u32, level: u32, lo: u64, tip: u64, a: u64, b: u64) -> bool {
    &&& lo <= a <= b <= tip
    &&& forall|h: u64| lo <= h < a ==> #[trigger] log_slots(h) < level
    &&& (b == tip || log_slots(b) >= level)
}

pub open spec fn never_shrinks(log_slots: spec_fn(u64) -> u32) -> bool {
    forall|h1: u64, h2: u64| h1 <= h2 ==> #[trigger] log_slots(h1) <= #[trigger] log_slots(h2)
}

/// The bisection over headers that finds where log_slots first reached a
/// level keeps its bracket at every step and narrows it, and a closed
/// bracket is the first height at the level (or the tip, if none is).
pub proof fn law_expansion_search(log_slots: spec_fn(u64) -> u32, level: u32, lo: u64, tip: u64, a: u64, b: u64)
    requires
        never_shrinks(log_slots),
        brackets(log_slots, level, lo, tip, a, b),
    ensures
        a < b ==> ({
            let mid = (a + (b - a) / 2) as u64;
            let (a2, b2) = narrowed(a, b, mid, log_slots(mid), level);
            &&& brackets(log_slots, level, lo, tip, a2, b2)
            &&& b2 - a2 < b - a
        }),
        a == b && log_slots(a) >= level ==> forall|h: u64| lo <= h < a ==> #[trigger] log_slots(h) < level,
        a == b && log_slots(a) < level ==> a == tip && forall|h: u64| lo <= h <= tip ==> #[trigger] log_slots(h) < level,
{
    if a < b {
        let mid = (a + (b - a) / 2) as u64;
        if log_slots(mid) < level {
            assert forall|h: u64| lo <= h < mid + 1 implies #[trigger] log_slots(h) < level by {
                if h >= a {
                    assert(log_slots(h) <= log_slots(mid));
                }
            }
        }
    }
}


/// FNV-1a as published: the 64-bit offset basis for no bytes, and for one
/// more byte the hash so far XORed with it, then multiplied by the 64-bit
/// FNV prime modulo 2^64.
pub proof fn law_fnv1a_steps(bs: Seq<u8>, b: u8)
    ensures
        fnv1a(Seq::<u8>::empty()) == 0xcbf2_9ce4_8422_2325u64,
        fnv1a(bs.push(b)) == (fnv1a(bs) ^ (b as u64)).wrapping_mul(0x0100_0000_01b3u64),
{
    assert(bs.push(b).drop_last() == bs);
}


/// The history's sampling distance for a tip is the given step doubled
/// just often enough that the tip spans at most 2,400 steps: a power-of-two
/// multiple of the step, and half of it (where it was doubled at all) would
/// span more.
pub proof fn law_scaled_step_doubles_just_enough(step: u64, tip: u64)
    requires
        step > 0,
    ensures
        ({
            let r = scaled_step(step, tip);
            &&& r >= step
            &&& tip / r <= 2400
            &&& r == step || tip as int / (r / 2) as int > 2400
            &&& exists|k: nat| r == step * pow2(k)
        }),
    decreases tip / step,
{
    lemma_scaled_step(step, tip);
    if tip / step > HISTORY_MAX_POINTS {
        assert(step * 2 <= u64::MAX) by (nonlinear_arith) requires tip / step > 2400, step > 0, tip <= u64::MAX;
        assert(tip / ((step * 2) as u64) < tip / step) by (nonlinear_arith) requires tip / step > 2400, step > 0;
        let s2 = (step * 2) as u64;
        law_scaled_step_doubles_just_enough(s2, tip);
        let r = scaled_step(s2, tip);
        assert(r == scaled_step(step, tip));
        let k = choose|k: nat| r == s2 * pow2(k);
        vstd::arithmetic::power2::lemma_pow2_unfold(k + 1);
        assert(s2 * pow2(k) == step * pow2(k + 1)) by (nonlinear_arith)
            requires s2 == step * 2, pow2(k + 1) == 2 * pow2(k);
        if r == s2 {
            assert(r / 2 == step);
        }
    } else {
        vstd::arithmetic::power2::lemma2_to64();
        assert(step == step * pow2(0));
    }
}


pub open spec fn trim_bounds(s: Seq<char>, a: int, b: int) -> bool {
    &&& 0 <= a <= b <= s.len()
    &&& forall|j: int| 0 <= j < a ==> is_white_space(#[trigger] s[j])
    &&& forall|j: int| b <= j < s.len() ==> is_white_space(#[trigger] s[j])
    &&& a < b ==> !is_white_space(s[a]) && !is_white_space(s[b - 1])
}

proof fn lemma_trim_bounds(s: Seq<char>) -> (r: (int, int))
    ensures
        trim_bounds(s, r.0, r.1),
        trimmed(s) == s.subrange(r.0, r.1),
    decreases s.len(),
{
    if s.len() > 0 && is_white_space(s[0]) {
        let t = s.drop_first();
        let (a, b) = lemma_trim_bounds(t);
        assert(t.subrange(a, b) == s.subrange(a + 1, b + 1));
        assert forall|j: int| 0 <= j < a + 1 implies is_white_space(#[trigger] s[j]) by {
            if j > 0 {
                assert(s[j] == t[j - 1]);
            }
        }
        assert forall|j: int| b + 1 <= j < s.len() implies is_white_space(#[trigger] s[j]) by {
            assert(s[j] == t[j - 1]);
        }
        if a < b {
            assert(s[a + 1] == t[a]);
            assert(s[b] == t[b - 1]);
        }
        (a + 1, b + 1)
    } else if s.len() > 0 && is_white_space(s.last()) {
        let t = s.drop_last();
        let (a, b) = lemma_trim_bounds(t);
        assert(t.subrange(a, b) == s.subrange(a, b));
        assert forall|j: int| 0 <= j < a implies is_white_space(#[trigger] s[j]) by {
            assert(s[j] == t[j]);
        }
        assert forall|j: int| b <= j < s.len() implies is_white_space(#[trigger] s[j]) by {
            if j < s.len() - 1 {
                assert(s[j] == t[j]);
            }
        }
        if a < b {
            assert(s[a] == t[a]);
            assert(s[b - 1] == t[b - 1]);
        }
        (a, b)
    } else {
        assert(s.subrange(0, s.len() as int) == s);
        (0, s.len() as int)
    }
}

/// Trimming cuts whitespace off both ends and nothing else: what is left is
/// a stretch of the text, everything before and after it is whitespace, and
/// it neither starts nor ends with whitespace.
pub proof fn law_trim_cuts_only_outer_whitespace(s: Seq<char>)
    ensures
        exists|a: int, b: int| trim_bounds(s, a, b) && trimmed(s) == s.subrange(a, b),
{
    let (a, b) = lemma_trim_bounds(s);
    assert(trim_bounds(s, a, b) && trimmed(s) == s.subrange(a, b));
}


/// A header naming the ETag alone, or as the last entry of a list, names
/// it (an ETag has no commas and no whitespace at its ends).
pub proof fn law_listed_etag_is_named(earlier: Seq<char>, etag: Seq<char>)
    requires
        etag.len() > 0,
        forall|j: int| 0 <= j < etag.len() ==> etag[j] != ',',
        !is_white_space(etag[0]),
        !is_white_space(etag.last()),
    ensures
        names_etag(etag, etag),
        names_etag(earlier + seq![','] + etag, etag),
{
    assert(etag.subrange(0, etag.len() as int) == etag);
    assert(trimmed(etag) == etag);
    assert(is_entry(etag, 0, etag.len() as int));
    let h = earlier + seq![','] + etag;
    let a: int = earlier.len() as int + 1;
    assert(h.subrange(a, h.len() as int) == etag);
    assert forall|j: int| a <= j < h.len() implies h[j] != ',' by {
        assert(h[j] == etag[j - a]);
    }
    assert(h[a - 1] == ',');
    assert(is_entry(h, a, h.len() as int));
}

} // verus!
