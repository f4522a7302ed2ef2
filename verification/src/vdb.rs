//! The virtual database: an in-memory song index and the queries the user
//! interface runs against it.
//!
//! The physical store that fills the index lives with the caller; these
//! queries are pure. The listings are distinct and sorted ascending
//! case-insensitively (ASCII letters folded, as the NOCASE collation folds
//! them); song lists are ordered by album, disc and track number. Where two
//! entries compare equal, the one whose song the index holds first comes
//! first.

use vstd::prelude::*;

verus! {

use vstd::string::{StrSliceExecFns, StringExecFns};
use crate::song::{Song, SongData};

/// Text with every single quote doubled, as SQL string literals want it.
pub open spec fn sql_escaped(s: Seq<char>) -> Seq<char>
    decreases s.len(),
{
    if s.len() == 0 {
        Seq::<char>::empty()
    } else {
        sql_escaped(s.drop_last()) + (if s.last() == '\'' {
            seq!['\'', '\'']
        } else {
            seq![s.last()]
        })
    }
}

/// Escape text for use inside a SQL string literal: every `'` becomes `''`.
pub fn fix(item: &str) -> (r: String)
    ensures
        r@ == sql_escaped(item@),
{
    let mut out = String::new();
    let n = item.unicode_len();
    #[verifier::loop_isolation(false)]
    for i in 0..n
        invariant
            out@ == sql_escaped(item@.take(i as int)),
    {
        let c = item.get_char(i);
        proof {
            assert(item@.take(i + 1).drop_last() =~= item@.take(i as int));
            assert(item@.take(i + 1).last() == item@[i as int]);
        }
        if c == '\'' {
            out.append("''");
            proof {
                reveal_strlit("''");
                assert("''"@ =~= seq!['\'', '\'']);
            }
        } else {
            let piece = item.substring_char(i, i + 1);
            out.append(piece);
            proof {
                assert(piece@ =~= seq![item@[i as int]]);
            }
        }
    }
    proof {
        assert(item@.take(n as int) =~= item@);
    }
    out
}

/// The views of a list of strings.
pub open spec fn string_views(v: Seq<String>) -> Seq<Seq<char>> {
    v.map_values(|s: String| s@)
}

/// The views of a list of songs.
pub open spec fn song_views(v: Seq<Song>) -> Seq<SongData> {
    v.map_values(|s: Song| s@)
}

/// A character's code point with ASCII upper-case letters folded onto their
/// lower-case forms: the collation the listings sort by.
pub open spec fn nocase_val(c: char) -> int {
    if 'A' as u32 <= c as u32 <= 'Z' as u32 {
        c as u32 + 32
    } else {
        c as int
    }
}

/// Case-insensitive lexicographic "sorts strictly before".
pub open spec fn nocase_lt(a: Seq<char>, b: Seq<char>) -> bool
    decreases b.len(),
{
    if b.len() == 0 {
        false
    } else if a.len() == 0 {
        true
    } else if nocase_val(a[0]) != nocase_val(b[0]) {
        nocase_val(a[0]) < nocase_val(b[0])
    } else {
        nocase_lt(a.skip(1), b.skip(1))
    }
}

/// Binary lexicographic "sorts strictly before": code points as they are.
pub open spec fn binary_lt(a: Seq<char>, b: Seq<char>) -> bool
    decreases b.len(),
{
    if b.len() == 0 {
        false
    } else if a.len() == 0 {
        true
    } else if a[0] as u32 != b[0] as u32 {
        (a[0] as u32) < (b[0] as u32)
    } else {
        binary_lt(a.skip(1), b.skip(1))
    }
}

/// A comparison is decided past any prefix on which the folded characters
/// agree.
proof fn lemma_nocase_prefix(a: Seq<char>, b: Seq<char>, i: int)
    requires
        0 <= i <= a.len(),
        i <= b.len(),
        forall|j: int| 0 <= j < i ==> nocase_val(a[j]) == nocase_val(b[j]),
    ensures
        nocase_lt(a, b) == nocase_lt(a.skip(i), b.skip(i)),
    decreases i,
{
    if i == 0 {
        assert(a.skip(0) =~= a);
        assert(b.skip(0) =~= b);
    } else {
        assert(nocase_val(a[0]) == nocase_val(b[0]));
        assert forall|j: int|
            0 <= j < i - 1 implies nocase_val(a.skip(1)[j]) == nocase_val(b.skip(1)[j]) by {
            assert(a.skip(1)[j] == a[j + 1]);
            assert(b.skip(1)[j] == b[j + 1]);
        }
        lemma_nocase_prefix(a.skip(1), b.skip(1), i - 1);
        assert(a.skip(1).skip(i - 1) =~= a.skip(i));
        assert(b.skip(1).skip(i - 1) =~= b.skip(i));
    }
}

/// A comparison is decided past any prefix on which the characters agree.
proof fn lemma_binary_prefix(a: Seq<char>, b: Seq<char>, i: int)
    requires
        0 <= i <= a.len(),
        i <= b.len(),
        forall|j: int| 0 <= j < i ==> a[j] as u32 == b[j] as u32,
    ensures
        binary_lt(a, b) == binary_lt(a.skip(i), b.skip(i)),
    decreases i,
{
    if i == 0 {
        assert(a.skip(0) =~= a);
        assert(b.skip(0) =~= b);
    } else {
        assert(a[0] as u32 == b[0] as u32);
        assert forall|j: int| 0 <= j < i - 1 implies a.skip(1)[j] as u32 == b.skip(1)[j] as u32 by {
            assert(a.skip(1)[j] == a[j + 1]);
            assert(b.skip(1)[j] == b[j + 1]);
        }
        lemma_binary_prefix(a.skip(1), b.skip(1), i - 1);
        assert(a.skip(1).skip(i - 1) =~= a.skip(i));
        assert(b.skip(1).skip(i - 1) =~= b.skip(i));
    }
}

/// A character's folded code point.
fn nocase_fold(c: char) -> (r: u32)
    ensures
        r == nocase_val(c),
{
    let v = c as u32;
    if 'A' as u32 <= v && v <= 'Z' as u32 {
        v + 32
    } else {
        v
    }
}

/// Whether `a` sorts strictly before `b` case-insensitively.
fn nocase_lt_str(a: &str, b: &str) -> (r: bool)
    ensures
        r == nocase_lt(a@, b@),
{
    let an = a.unicode_len();
    let bn = b.unicode_len();
    let mut i: usize = 0;
    #[verifier::loop_isolation(false)]
    while i < an && i < bn
        invariant
            i <= an,
            i <= bn,
            forall|j: int| 0 <= j < i ==> nocase_val(a@[j]) == nocase_val(b@[j]),
        decreases an - i,
    {
        let ca = nocase_fold(a.get_char(i));
        let cb = nocase_fold(b.get_char(i));
        if ca != cb {
            proof {
                lemma_nocase_prefix(a@, b@, i as int);
                assert(a@.skip(i as int)[0] == a@[i as int]);
                assert(b@.skip(i as int)[0] == b@[i as int]);
            }
            return ca < cb;
        }
        i += 1;
    }
    proof {
        lemma_nocase_prefix(a@, b@, i as int);
        assert(a@.skip(i as int).len() == a@.len() - i);
        assert(b@.skip(i as int).len() == b@.len() - i);
    }
    an < bn
}

/// Whether `a` sorts strictly before `b` by code points.
fn binary_lt_str(a: &str, b: &str) -> (r: bool)
    ensures
        r == binary_lt(a@, b@),
{
    let an = a.unicode_len();
    let bn = b.unicode_len();
    let mut i: usize = 0;
    #[verifier::loop_isolation(false)]
    while i < an && i < bn
        invariant
            i <= an,
            i <= bn,
            forall|j: int| 0 <= j < i ==> a@[j] as u32 == b@[j] as u32,
        decreases an - i,
    {
        let ca = a.get_char(i) as u32;
        let cb = b.get_char(i) as u32;
        if ca != cb {
            proof {
                lemma_binary_prefix(a@, b@, i as int);
                assert(a@.skip(i as int)[0] == a@[i as int]);
                assert(b@.skip(i as int)[0] == b@[i as int]);
            }
            return ca < cb;
        }
        i += 1;
    }
    proof {
        lemma_binary_prefix(a@, b@, i as int);
        assert(a@.skip(i as int).len() == a@.len() - i);
        assert(b@.skip(i as int).len() == b@.len() - i);
    }
    an < bn
}

/// Two sequences never each sort strictly before the other.
proof fn lemma_nocase_asym(a: Seq<char>, b: Seq<char>)
    requires
        nocase_lt(a, b),
    ensures
        !nocase_lt(b, a),
    decreases b.len(),
{
    if b.len() == 0 {
    } else if a.len() == 0 {
    } else if nocase_val(a[0]) != nocase_val(b[0]) {
    } else {
        lemma_nocase_asym(a.skip(1), b.skip(1));
    }
}

/// "Sorts no later than" is transitive: with `a` no later than `b` and `b`
/// no later than `c`, `a` is no later than `c`.
proof fn lemma_nocase_le_trans(a: Seq<char>, b: Seq<char>, c: Seq<char>)
    requires
        !nocase_lt(b, a),
        !nocase_lt(c, b),
    ensures
        !nocase_lt(c, a),
    decreases a.len(),
{
    if a.len() == 0 {
    } else if c.len() == 0 {
        if b.len() == 0 {
            assert(nocase_lt(b, a));
        } else {
            assert(nocase_lt(c, b));
        }
    } else {
        if b.len() == 0 {
            assert(nocase_lt(b, a));
        }
        if nocase_val(c[0]) == nocase_val(a[0]) {
            assert(nocase_val(b[0]) == nocase_val(a[0]));
            lemma_nocase_le_trans(a.skip(1), b.skip(1), c.skip(1));
        }
    }
}

/// Each entry sorts no later, case-insensitively, than every entry after it.
pub open spec fn nocase_sorted(v: Seq<Seq<char>>) -> bool {
    forall|i: int, j: int| 0 <= i < j < v.len() ==> !nocase_lt(v[j], v[i])
}

/// `x` placed into `v` before every entry that sorts strictly after it
/// case-insensitively and after every other: a stable insertion, so entries
/// whose folded keys are equal keep their order of arrival.
pub open spec fn insert_nocase(v: Seq<Seq<char>>, x: Seq<char>) -> Seq<Seq<char>>
    decreases v.len(),
{
    if v.len() == 0 {
        seq![x]
    } else if nocase_lt(x, v.last()) {
        insert_nocase(v.drop_last(), x).push(v.last())
    } else {
        v.push(x)
    }
}

/// No entry appears twice.
pub open spec fn distinct_entries(v: Seq<Seq<char>>) -> bool {
    forall|i: int, j: int| 0 <= i < j < v.len() ==> v[i] != v[j]
}

/// No pair appears twice.
pub open spec fn distinct_pairs(v: Seq<(Seq<char>, Seq<char>)>) -> bool {
    forall|i: int, j: int| 0 <= i < j < v.len() ==> v[i] != v[j]
}

/// The stable insertion keeps the list sorted, adds one entry, and holds
/// exactly the old entries and `x`.
proof fn lemma_insert_nocase_sorted(v: Seq<Seq<char>>, x: Seq<char>)
    requires
        nocase_sorted(v),
    ensures
        nocase_sorted(insert_nocase(v, x)),
        insert_nocase(v, x).len() == v.len() + 1,
        insert_nocase(v, x).contains(x),
        forall|y: Seq<char>| insert_nocase(v, x).contains(y) <==> (v.contains(y) || y == x),
        !v.contains(x) && distinct_entries(v) ==> distinct_entries(insert_nocase(v, x)),
    decreases v.len(),
{
    let r = insert_nocase(v, x);
    if v.len() == 0 {
        assert(r == seq![x]);
        assert(r[0] == x);
        assert forall|y: Seq<char>| r.contains(y) <==> (v.contains(y) || y == x) by {
            if y == x {
                assert(r.contains(r[0]));
            }
        }
        assert(r.contains(r[0]));
    } else if nocase_lt(x, v.last()) {
        let t = v.drop_last();
        assert forall|i: int, j: int| 0 <= i < j < t.len() implies !nocase_lt(t[j], t[i]) by {
            assert(t[i] == v[i] && t[j] == v[j]);
        }
        lemma_insert_nocase_sorted(t, x);
        let s = insert_nocase(t, x);
        assert(r == s.push(v.last()));
        // Every entry of the inserted prefix sorts no later than the old
        // last entry, which stays last.
        assert forall|i: int| 0 <= i < s.len() implies !nocase_lt(v.last(), s[i]) by {
            assert(s.contains(s[i]));
            if s[i] == x {
                lemma_nocase_asym(x, v.last());
            } else {
                assert(t.contains(s[i]));
                let k = choose|k: int| 0 <= k < t.len() && t[k] == s[i];
                assert(v[k] == s[i]);
                assert(!nocase_lt(v[v.len() - 1], v[k]));
            }
        }
        assert forall|i: int, j: int| 0 <= i < j < r.len() implies !nocase_lt(r[j], r[i]) by {
            if j < s.len() {
                assert(r[i] == s[i] && r[j] == s[j]);
            } else {
                assert(r[i] == s[i] && r[j] == v.last());
            }
        }
        assert forall|y: Seq<char>| r.contains(y) <==> (v.contains(y) || y == x) by {
            if r.contains(y) {
                let k = choose|k: int| 0 <= k < r.len() && r[k] == y;
                if k < s.len() {
                    assert(s.contains(s[k]));
                    if s[k] != x {
                        assert(t.contains(y));
                        let m = choose|m: int| 0 <= m < t.len() && t[m] == y;
                        assert(v[m] == y);
                        assert(v.contains(v[m]));
                    }
                } else {
                    assert(v.contains(v[v.len() - 1]));
                }
            }
            if v.contains(y) {
                let k = choose|k: int| 0 <= k < v.len() && v[k] == y;
                if k < v.len() - 1 {
                    assert(t[k] == y);
                    assert(t.contains(t[k]));
                    assert(s.contains(y));
                    let m = choose|m: int| 0 <= m < s.len() && s[m] == y;
                    assert(r[m] == y);
                    assert(r.contains(r[m]));
                } else {
                    assert(r[r.len() - 1] == y);
                    assert(r.contains(r[r.len() - 1]));
                }
            }
            if y == x {
                let m = choose|m: int| 0 <= m < s.len() && s[m] == x;
                assert(r[m] == x);
                assert(r.contains(r[m]));
            }
        }
        let m = choose|m: int| 0 <= m < s.len() && s[m] == x;
        assert(r[m] == x);
        assert(r.contains(r[m]));
        if !v.contains(x) && distinct_entries(v) {
            assert forall|i: int, j: int| 0 <= i < j < t.len() implies t[i] != t[j] by {
                assert(t[i] == v[i] && t[j] == v[j]);
            }
            assert(!t.contains(x)) by {
                if t.contains(x) {
                    let k = choose|k: int| 0 <= k < t.len() && t[k] == x;
                    assert(v.contains(v[k]));
                }
            }
            assert(!s.contains(v.last())) by {
                if s.contains(v.last()) {
                    assert(v.contains(v[v.len() - 1]));
                    if t.contains(v.last()) {
                        let k = choose|k: int| 0 <= k < t.len() && t[k] == v.last();
                        assert(v[k] == v[v.len() - 1]);
                    }
                }
            }
            assert forall|i: int, j: int| 0 <= i < j < r.len() implies r[i] != r[j] by {
                if j < s.len() {
                    assert(r[i] == s[i] && r[j] == s[j]);
                } else {
                    assert(r[i] == s[i] && r[j] == v.last());
                    assert(s.contains(s[i]));
                }
            }
        }
    } else {
        assert(r == v.push(x));
        assert forall|i: int, j: int| 0 <= i < j < r.len() implies !nocase_lt(r[j], r[i]) by {
            if j == v.len() {
                assert(r[i] == v[i] && r[j] == x);
                if i < v.len() - 1 {
                    assert(!nocase_lt(v[v.len() - 1], v[i]));
                    lemma_nocase_le_trans(v[i], v.last(), x);
                }
            } else {
                assert(r[i] == v[i] && r[j] == v[j]);
            }
        }
        assert forall|y: Seq<char>| r.contains(y) <==> (v.contains(y) || y == x) by {
            if r.contains(y) {
                let k = choose|k: int| 0 <= k < r.len() && r[k] == y;
                if k < v.len() {
                    assert(v.contains(v[k]));
                }
            }
            if v.contains(y) {
                let k = choose|k: int| 0 <= k < v.len() && v[k] == y;
                assert(r.contains(r[k]));
            }
            if y == x {
                assert(r.contains(r[v.len() as int]));
            }
        }
        assert(r[v.len() as int] == x);
        assert(r.contains(r[v.len() as int]));
    }
}

/// `x` placed into `v` before every pair whose artist sorts strictly after
/// `x`'s case-insensitively and after every other: a stable insertion by
/// artist.
pub open spec fn insert_pair_by_artist(
    v: Seq<(Seq<char>, Seq<char>)>,
    x: (Seq<char>, Seq<char>),
) -> Seq<(Seq<char>, Seq<char>)>
    decreases v.len(),
{
    if v.len() == 0 {
        seq![x]
    } else if nocase_lt(x.1, v.last().1) {
        insert_pair_by_artist(v.drop_last(), x).push(v.last())
    } else {
        v.push(x)
    }
}

/// No sequence sorts strictly before itself by code points.
proof fn lemma_binary_irrefl(a: Seq<char>)
    ensures
        !binary_lt(a, a),
    decreases a.len(),
{
    if a.len() > 0 {
        lemma_binary_irrefl(a.skip(1));
    }
}

/// Two sequences never each sort strictly before the other by code points.
proof fn lemma_binary_asym(a: Seq<char>, b: Seq<char>)
    requires
        binary_lt(a, b),
    ensures
        !binary_lt(b, a),
    decreases b.len(),
{
    if b.len() == 0 {
    } else if a.len() == 0 {
    } else if a[0] as u32 != b[0] as u32 {
    } else {
        lemma_binary_asym(a.skip(1), b.skip(1));
    }
}

/// "Sorts no later than" by code points is transitive.
proof fn lemma_binary_le_trans(a: Seq<char>, b: Seq<char>, c: Seq<char>)
    requires
        !binary_lt(b, a),
        !binary_lt(c, b),
    ensures
        !binary_lt(c, a),
    decreases a.len(),
{
    if a.len() == 0 {
    } else if c.len() == 0 {
        if b.len() == 0 {
            assert(binary_lt(b, a));
        } else {
            assert(binary_lt(c, b));
        }
    } else {
        if b.len() == 0 {
            assert(binary_lt(b, a));
        }
        if c[0] as u32 == a[0] as u32 {
            assert(b[0] as u32 == a[0] as u32);
            lemma_binary_le_trans(a.skip(1), b.skip(1), c.skip(1));
        }
    }
}

/// Sequences that neither sorts strictly before the other by code points are
/// equal.
proof fn lemma_binary_connex(a: Seq<char>, b: Seq<char>)
    requires
        !binary_lt(a, b),
        !binary_lt(b, a),
    ensures
        a == b,
    decreases a.len(),
{
    if a.len() == 0 {
        if b.len() > 0 {
            assert(binary_lt(a, b));
        }
        assert(a =~= b);
    } else if b.len() == 0 {
        assert(binary_lt(b, a));
    } else {
        assert(a[0] as u32 == b[0] as u32);
        let u: u32 = a[0] as u32;
        vstd::utf8::char_u32_cast(a[0], u);
        vstd::utf8::char_u32_cast(b[0], u);
        assert(a[0] == b[0]);
        lemma_binary_connex(a.skip(1), b.skip(1));
        assert(a.skip(1) == b.skip(1));
        assert(a.skip(1).len() == b.skip(1).len());
        assert(a.skip(1).len() == a.len() - 1);
        assert(b.skip(1).len() == b.len() - 1);
        assert(a.len() == b.len());
        assert forall|i: int| 0 <= i < a.len() implies a[i] == b[i] by {
            if i > 0 {
                assert(a.skip(1)[i - 1] == a[i]);
                assert(b.skip(1)[i - 1] == b[i]);
            }
        }
        assert(a =~= b);
    }
}

/// One song sorts strictly before another by album (code points), then disc,
/// then track number.
pub open spec fn song_before(a: SongData, b: SongData) -> bool {
    ||| binary_lt(a.album, b.album)
    ||| (a.album == b.album && a.disc < b.disc)
    ||| (a.album == b.album && a.disc == b.disc && a.number < b.number)
}

/// One song sorts strictly before another by disc, then track number.
pub open spec fn track_before(a: SongData, b: SongData) -> bool {
    ||| a.disc < b.disc
    ||| (a.disc == b.disc && a.number < b.number)
}

/// Two songs never each sort strictly before the other by album, disc and
/// number.
proof fn lemma_song_asym(a: SongData, b: SongData)
    requires
        song_before(a, b),
    ensures
        !song_before(b, a),
{
    if binary_lt(a.album, b.album) {
        lemma_binary_asym(a.album, b.album);
        if b.album == a.album {
            lemma_binary_irrefl(a.album);
        }
    } else {
        if binary_lt(b.album, a.album) {
            lemma_binary_irrefl(a.album);
        }
    }
}

/// "Sorts no later than" by album, disc and number is transitive.
proof fn lemma_song_le_trans(a: SongData, b: SongData, c: SongData)
    requires
        !song_before(b, a),
        !song_before(c, b),
    ensures
        !song_before(c, a),
{
    assert(!binary_lt(b.album, a.album));
    assert(!binary_lt(c.album, b.album));
    lemma_binary_le_trans(a.album, b.album, c.album);
    if c.album == a.album {
        assert(!binary_lt(a.album, b.album));
        lemma_binary_connex(a.album, b.album);
        assert(b.album == a.album);
    }
}

/// Each song sorts no later by album, disc and number than every later one.
pub open spec fn album_sorted(v: Seq<SongData>) -> bool {
    forall|i: int, j: int| 0 <= i < j < v.len() ==> !song_before(v[j], v[i])
}

/// `x` placed into `v` before every song that sorts strictly after it by
/// album, disc and number, and after every other: a stable insertion.
pub open spec fn insert_song_by_album(v: Seq<SongData>, x: SongData) -> Seq<SongData>
    decreases v.len(),
{
    if v.len() == 0 {
        seq![x]
    } else if song_before(x, v.last()) {
        insert_song_by_album(v.drop_last(), x).push(v.last())
    } else {
        v.push(x)
    }
}

/// The stable insertion by album, disc and number keeps the list sorted,
/// adds one entry, and holds exactly the old entries and `x`.
proof fn lemma_insert_song_by_album_sorted(v: Seq<SongData>, x: SongData)
    requires
        album_sorted(v),
    ensures
        album_sorted(insert_song_by_album(v, x)),
        insert_song_by_album(v, x).len() == v.len() + 1,
        insert_song_by_album(v, x).contains(x),
        forall|y: SongData| insert_song_by_album(v, x).contains(y) <==> (v.contains(y) || y == x),
    decreases v.len(),
{
    let r = insert_song_by_album(v, x);
    if v.len() == 0 {
        assert(r == seq![x]);
        assert(r[0] == x);
        assert forall|y: SongData| r.contains(y) <==> (v.contains(y) || y == x) by {
            if y == x {
                assert(r.contains(r[0]));
            }
        }
        assert(r.contains(r[0]));
    } else if song_before(x, v.last()) {
        let t = v.drop_last();
        assert forall|i: int, j: int| 0 <= i < j < t.len() implies !song_before(t[j], t[i]) by {
            assert(t[i] == v[i] && t[j] == v[j]);
        }
        lemma_insert_song_by_album_sorted(t, x);
        let s = insert_song_by_album(t, x);
        assert(r == s.push(v.last()));
        assert forall|i: int| 0 <= i < s.len() implies !song_before(v.last(), s[i]) by {
            assert(s.contains(s[i]));
            if s[i] == x {
                lemma_song_asym(x, v.last());
            } else {
                assert(t.contains(s[i]));
                let k = choose|k: int| 0 <= k < t.len() && t[k] == s[i];
                assert(v[k] == s[i]);
                assert(!song_before(v[v.len() - 1], v[k]));
            }
        }
        assert forall|i: int, j: int| 0 <= i < j < r.len() implies !song_before(r[j], r[i]) by {
            if j < s.len() {
                assert(r[i] == s[i] && r[j] == s[j]);
            } else {
                assert(r[i] == s[i] && r[j] == v.last());
            }
        }
        assert forall|y: SongData| r.contains(y) <==> (v.contains(y) || y == x) by {
            if r.contains(y) {
                let k = choose|k: int| 0 <= k < r.len() && r[k] == y;
                if k < s.len() {
                    assert(s.contains(s[k]));
                    if s[k] != x {
                        assert(t.contains(y));
                        let m = choose|m: int| 0 <= m < t.len() && t[m] == y;
                        assert(v[m] == y);
                        assert(v.contains(v[m]));
                    }
                } else {
                    assert(v.contains(v[v.len() - 1]));
                }
            }
            if v.contains(y) {
                let k = choose|k: int| 0 <= k < v.len() && v[k] == y;
                if k < v.len() - 1 {
                    assert(t[k] == y);
                    assert(t.contains(t[k]));
                    assert(s.contains(y));
                    let m = choose|m: int| 0 <= m < s.len() && s[m] == y;
                    assert(r[m] == y);
                    assert(r.contains(r[m]));
                } else {
                    assert(r[r.len() - 1] == y);
                    assert(r.contains(r[r.len() - 1]));
                }
            }
            if y == x {
                let m = choose|m: int| 0 <= m < s.len() && s[m] == x;
                assert(r[m] == x);
                assert(r.contains(r[m]));
            }
        }
        let m = choose|m: int| 0 <= m < s.len() && s[m] == x;
        assert(r[m] == x);
        assert(r.contains(r[m]));
    } else {
        assert(r == v.push(x));
        assert forall|i: int, j: int| 0 <= i < j < r.len() implies !song_before(r[j], r[i]) by {
            if j == v.len() {
                assert(r[i] == v[i] && r[j] == x);
                if i < v.len() - 1 {
                    assert(!song_before(v[v.len() - 1], v[i]));
                    lemma_song_le_trans(v[i], v.last(), x);
                }
            } else {
                assert(r[i] == v[i] && r[j] == v[j]);
            }
        }
        assert forall|y: SongData| r.contains(y) <==> (v.contains(y) || y == x) by {
            if r.contains(y) {
                let k = choose|k: int| 0 <= k < r.len() && r[k] == y;
                if k < v.len() {
                    assert(v.contains(v[k]));
                }
            }
            if v.contains(y) {
                let k = choose|k: int| 0 <= k < v.len() && v[k] == y;
                assert(r.contains(r[k]));
            }
            if y == x {
                assert(r.contains(r[v.len() as int]));
            }
        }
        assert(r[v.len() as int] == x);
        assert(r.contains(r[v.len() as int]));
    }
}

/// `x` placed into `v` before every song that sorts strictly after it by
/// disc and number, and after every other: a stable insertion.
pub open spec fn insert_song_by_track(v: Seq<SongData>, x: SongData) -> Seq<SongData>
    decreases v.len(),
{
    if v.len() == 0 {
        seq![x]
    } else if track_before(x, v.last()) {
        insert_song_by_track(v.drop_last(), x).push(v.last())
    } else {
        v.push(x)
    }
}

/// Insert a string into a case-insensitively sorted list at its stable
/// position.
fn insert_sorted_nocase(list: &mut Vec<String>, item: String)
    ensures
        string_views(final(list)@) == insert_nocase(string_views(old(list)@), item@),
{
    let ghost v = string_views(list@);
    let mut i: usize = list.len();
    proof {
        assert(v.take(i as int) =~= v);
        assert(insert_nocase(v, item@) + v.skip(i as int) =~= insert_nocase(v, item@));
    }
    #[verifier::loop_isolation(false)]
    while i > 0 && nocase_lt_str(item.as_str(), list[i - 1].as_str())
        invariant
            i <= list@.len(),
            list@ == old(list)@,
            insert_nocase(v, item@) == insert_nocase(v.take(i as int), item@) + v.skip(i as int),
        decreases i,
    {
        proof {
            assert(v.take(i as int).last() == v[i - 1]);
            assert(v.take(i as int).drop_last() =~= v.take(i - 1));
            assert(insert_nocase(v.take(i - 1), item@).push(v[i - 1]) + v.skip(i as int)
                =~= insert_nocase(v.take(i - 1), item@) + v.skip(i - 1));
        }
        i -= 1;
    }
    proof {
        if i == 0 {
            assert(v.take(0) =~= Seq::<Seq<char>>::empty());
            assert(insert_nocase(v, item@) =~= seq![item@] + v);
        } else {
            assert(v.take(i as int).last() == v[i - 1]);
        }
        assert(insert_nocase(v, item@) == v.take(i as int).push(item@) + v.skip(i as int));
    }
    list.insert(i, item);
    proof {
        assert(string_views(list@) =~= v.take(i as int).push(item@) + v.skip(i as int));
    }
}

/// Each pair's artist sorts no later, case-insensitively, than every later
/// pair's.
pub open spec fn pairs_sorted_by_artist(v: Seq<(Seq<char>, Seq<char>)>) -> bool {
    forall|i: int, j: int| 0 <= i < j < v.len() ==> !nocase_lt(v[j].1, v[i].1)
}

/// The stable insertion by artist keeps the pair list sorted, adds one
/// entry, and holds exactly the old entries and `x`.
proof fn lemma_insert_pair_sorted(v: Seq<(Seq<char>, Seq<char>)>, x: (Seq<char>, Seq<char>))
    requires
        pairs_sorted_by_artist(v),
    ensures
        pairs_sorted_by_artist(insert_pair_by_artist(v, x)),
        insert_pair_by_artist(v, x).len() == v.len() + 1,
        insert_pair_by_artist(v, x).contains(x),
        forall|y: (Seq<char>, Seq<char>)|
            insert_pair_by_artist(v, x).contains(y) <==> (v.contains(y) || y == x),
        !v.contains(x) && distinct_pairs(v) ==> distinct_pairs(insert_pair_by_artist(v, x)),
    decreases v.len(),
{
    let r = insert_pair_by_artist(v, x);
    if v.len() == 0 {
        assert(r == seq![x]);
        assert(r[0] == x);
        assert forall|y: (Seq<char>, Seq<char>)| r.contains(y) <==> (v.contains(y) || y == x) by {
            if y == x {
                assert(r.contains(r[0]));
            }
        }
        assert(r.contains(r[0]));
    } else if nocase_lt(x.1, v.last().1) {
        let t = v.drop_last();
        assert forall|i: int, j: int| 0 <= i < j < t.len() implies !nocase_lt(t[j].1, t[i].1) by {
            assert(t[i] == v[i] && t[j] == v[j]);
        }
        lemma_insert_pair_sorted(t, x);
        let s = insert_pair_by_artist(t, x);
        assert(r == s.push(v.last()));
        assert forall|i: int| 0 <= i < s.len() implies !nocase_lt(v.last().1, s[i].1) by {
            assert(s.contains(s[i]));
            if s[i] == x {
                lemma_nocase_asym(x.1, v.last().1);
            } else {
                assert(t.contains(s[i]));
                let k = choose|k: int| 0 <= k < t.len() && t[k] == s[i];
                assert(v[k] == s[i]);
                assert(!nocase_lt(v[v.len() - 1].1, v[k].1));
            }
        }
        assert forall|i: int, j: int| 0 <= i < j < r.len() implies !nocase_lt(r[j].1, r[i].1) by {
            if j < s.len() {
                assert(r[i] == s[i] && r[j] == s[j]);
            } else {
                assert(r[i] == s[i] && r[j] == v.last());
            }
        }
        assert forall|y: (Seq<char>, Seq<char>)| r.contains(y) <==> (v.contains(y) || y == x) by {
            if r.contains(y) {
                let k = choose|k: int| 0 <= k < r.len() && r[k] == y;
                if k < s.len() {
                    assert(s.contains(s[k]));
                    if s[k] != x {
                        assert(t.contains(y));
                        let m = choose|m: int| 0 <= m < t.len() && t[m] == y;
                        assert(v[m] == y);
                        assert(v.contains(v[m]));
                    }
                } else {
                    assert(v.contains(v[v.len() - 1]));
                }
            }
            if v.contains(y) {
                let k = choose|k: int| 0 <= k < v.len() && v[k] == y;
                if k < v.len() - 1 {
                    assert(t[k] == y);
                    assert(t.contains(t[k]));
                    assert(s.contains(y));
                    let m = choose|m: int| 0 <= m < s.len() && s[m] == y;
                    assert(r[m] == y);
                    assert(r.contains(r[m]));
                } else {
                    assert(r[r.len() - 1] == y);
                    assert(r.contains(r[r.len() - 1]));
                }
            }
            if y == x {
                let m = choose|m: int| 0 <= m < s.len() && s[m] == x;
                assert(r[m] == x);
                assert(r.contains(r[m]));
            }
        }
        let m = choose|m: int| 0 <= m < s.len() && s[m] == x;
        assert(r[m] == x);
        assert(r.contains(r[m]));
        if !v.contains(x) && distinct_pairs(v) {
            assert forall|i: int, j: int| 0 <= i < j < t.len() implies t[i] != t[j] by {
                assert(t[i] == v[i] && t[j] == v[j]);
            }
            assert(!t.contains(x)) by {
                if t.contains(x) {
                    let k = choose|k: int| 0 <= k < t.len() && t[k] == x;
                    assert(v.contains(v[k]));
                }
            }
            assert(!s.contains(v.last())) by {
                if s.contains(v.last()) {
                    assert(v.contains(v[v.len() - 1]));
                    if t.contains(v.last()) {
                        let k = choose|k: int| 0 <= k < t.len() && t[k] == v.last();
                        assert(v[k] == v[v.len() - 1]);
                    }
                }
            }
            assert forall|i: int, j: int| 0 <= i < j < r.len() implies r[i] != r[j] by {
                if j < s.len() {
                    assert(r[i] == s[i] && r[j] == s[j]);
                } else {
                    assert(r[i] == s[i] && r[j] == v.last());
                    assert(s.contains(s[i]));
                }
            }
        }
    } else {
        assert(r == v.push(x));
        assert forall|i: int, j: int| 0 <= i < j < r.len() implies !nocase_lt(r[j].1, r[i].1) by {
            if j == v.len() {
                assert(r[i] == v[i] && r[j] == x);
                if i < v.len() - 1 {
                    assert(!nocase_lt(v[v.len() - 1].1, v[i].1));
                    lemma_nocase_le_trans(v[i].1, v.last().1, x.1);
                }
            } else {
                assert(r[i] == v[i] && r[j] == v[j]);
            }
        }
        assert forall|y: (Seq<char>, Seq<char>)| r.contains(y) <==> (v.contains(y) || y == x) by {
            if r.contains(y) {
                let k = choose|k: int| 0 <= k < r.len() && r[k] == y;
                if k < v.len() {
                    assert(v.contains(v[k]));
                }
            }
            if v.contains(y) {
                let k = choose|k: int| 0 <= k < v.len() && v[k] == y;
                assert(r.contains(r[k]));
            }
            if y == x {
                assert(r.contains(r[v.len() as int]));
            }
        }
        assert(r[v.len() as int] == x);
        assert(r.contains(r[v.len() as int]));
        if !v.contains(x) && distinct_pairs(v) {
            assert forall|i: int, j: int| 0 <= i < j < r.len() implies r[i] != r[j] by {
                if j == v.len() {
                    assert(r[i] == v[i] && r[j] == x);
                    assert(v.contains(v[i]));
                } else {
                    assert(r[i] == v[i] && r[j] == v[j]);
                }
            }
        }
    }
}

/// Insert an album–artist pair into a list sorted case-insensitively by
/// artist, at its stable position.
fn insert_sorted_pair(list: &mut Vec<(String, String)>, album: String, artist: String)
    ensures
        pair_views(final(list)@) == insert_pair_by_artist(
            pair_views(old(list)@),
            (album@, artist@),
        ),
{
    let ghost v = pair_views(list@);
    let ghost x = (album@, artist@);
    let mut i: usize = list.len();
    proof {
        assert(v.take(i as int) =~= v);
        assert(insert_pair_by_artist(v, x) + v.skip(i as int) =~= insert_pair_by_artist(v, x));
    }
    #[verifier::loop_isolation(false)]
    while i > 0 && nocase_lt_str(artist.as_str(), list[i - 1].1.as_str())
        invariant
            i <= list@.len(),
            list@ == old(list)@,
            insert_pair_by_artist(v, x) == insert_pair_by_artist(v.take(i as int), x) + v.skip(
                i as int,
            ),
        decreases i,
    {
        proof {
            assert(v.take(i as int).last() == v[i - 1]);
            assert(v.take(i as int).drop_last() =~= v.take(i - 1));
            assert(insert_pair_by_artist(v.take(i - 1), x).push(v[i - 1]) + v.skip(i as int)
                =~= insert_pair_by_artist(v.take(i - 1), x) + v.skip(i - 1));
        }
        i -= 1;
    }
    proof {
        if i == 0 {
            assert(v.take(0) =~= Seq::<(Seq<char>, Seq<char>)>::empty());
            assert(insert_pair_by_artist(v, x) =~= seq![x] + v);
        } else {
            assert(v.take(i as int).last() == v[i - 1]);
        }
        assert(insert_pair_by_artist(v, x) == v.take(i as int).push(x) + v.skip(i as int));
    }
    list.insert(i, (album, artist));
    proof {
        assert(pair_views(list@) =~= v.take(i as int).push(x) + v.skip(i as int));
    }
}

/// One song sorts strictly before another by album, disc, number.
fn song_before_exec(a: &Song, b: &Song) -> (r: bool)
    ensures
        r == song_before(a@, b@),
{
    if binary_lt_str(a.album.as_str(), b.album.as_str()) {
        true
    } else if a.album == b.album {
        a.disc < b.disc || (a.disc == b.disc && a.number < b.number)
    } else {
        false
    }
}

/// One song sorts strictly before another by disc, number.
fn track_before_exec(a: &Song, b: &Song) -> (r: bool)
    ensures
        r == track_before(a@, b@),
{
    a.disc < b.disc || (a.disc == b.disc && a.number < b.number)
}

/// Insert a song into a list sorted by album, disc and number, at its stable
/// position.
fn insert_sorted_song_by_album(list: &mut Vec<Song>, item: Song)
    ensures
        song_views(final(list)@) == insert_song_by_album(song_views(old(list)@), item@),
{
    let ghost v = song_views(list@);
    let ghost x = item@;
    let mut i: usize = list.len();
    proof {
        assert(v.take(i as int) =~= v);
        assert(insert_song_by_album(v, x) + v.skip(i as int) =~= insert_song_by_album(v, x));
    }
    #[verifier::loop_isolation(false)]
    while i > 0 && song_before_exec(&item, &list[i - 1])
        invariant
            i <= list@.len(),
            list@ == old(list)@,
            insert_song_by_album(v, x) == insert_song_by_album(v.take(i as int), x) + v.skip(
                i as int,
            ),
        decreases i,
    {
        proof {
            assert(v.take(i as int).last() == v[i - 1]);
            assert(v.take(i as int).drop_last() =~= v.take(i - 1));
            assert(insert_song_by_album(v.take(i - 1), x).push(v[i - 1]) + v.skip(i as int)
                =~= insert_song_by_album(v.take(i - 1), x) + v.skip(i - 1));
        }
        i -= 1;
    }
    proof {
        if i == 0 {
            assert(v.take(0) =~= Seq::<SongData>::empty());
            assert(insert_song_by_album(v, x) =~= seq![x] + v);
        } else {
            assert(v.take(i as int).last() == v[i - 1]);
        }
        assert(insert_song_by_album(v, x) == v.take(i as int).push(x) + v.skip(i as int));
    }
    list.insert(i, item);
    proof {
        assert(song_views(list@) =~= v.take(i as int).push(x) + v.skip(i as int));
    }
}

/// Each song sorts no later by disc and number than every later one.
pub open spec fn track_sorted(v: Seq<SongData>) -> bool {
    forall|i: int, j: int| 0 <= i < j < v.len() ==> !track_before(v[j], v[i])
}

/// The stable insertion by disc and number keeps the list sorted, adds one
/// entry, and holds exactly the old entries and `x`.
proof fn lemma_insert_song_by_track_sorted(v: Seq<SongData>, x: SongData)
    requires
        track_sorted(v),
    ensures
        track_sorted(insert_song_by_track(v, x)),
        insert_song_by_track(v, x).len() == v.len() + 1,
        insert_song_by_track(v, x).contains(x),
        forall|y: SongData| insert_song_by_track(v, x).contains(y) <==> (v.contains(y) || y == x),
    decreases v.len(),
{
    let r = insert_song_by_track(v, x);
    if v.len() == 0 {
        assert(r == seq![x]);
        assert(r[0] == x);
        assert forall|y: SongData| r.contains(y) <==> (v.contains(y) || y == x) by {
            if y == x {
                assert(r.contains(r[0]));
            }
        }
        assert(r.contains(r[0]));
    } else if track_before(x, v.last()) {
        let t = v.drop_last();
        assert forall|i: int, j: int| 0 <= i < j < t.len() implies !track_before(t[j], t[i]) by {
            assert(t[i] == v[i] && t[j] == v[j]);
        }
        lemma_insert_song_by_track_sorted(t, x);
        let s = insert_song_by_track(t, x);
        assert(r == s.push(v.last()));
        assert forall|i: int| 0 <= i < s.len() implies !track_before(v.last(), s[i]) by {
            assert(s.contains(s[i]));
            if s[i] != x {
                assert(t.contains(s[i]));
                let k = choose|k: int| 0 <= k < t.len() && t[k] == s[i];
                assert(v[k] == s[i]);
                assert(!track_before(v[v.len() - 1], v[k]));
            }
        }
        assert forall|i: int, j: int| 0 <= i < j < r.len() implies !track_before(r[j], r[i]) by {
            if j < s.len() {
                assert(r[i] == s[i] && r[j] == s[j]);
            } else {
                assert(r[i] == s[i] && r[j] == v.last());
            }
        }
        assert forall|y: SongData| r.contains(y) <==> (v.contains(y) || y == x) by {
            if r.contains(y) {
                let k = choose|k: int| 0 <= k < r.len() && r[k] == y;
                if k < s.len() {
                    assert(s.contains(s[k]));
                    if s[k] != x {
                        assert(t.contains(y));
                        let m = choose|m: int| 0 <= m < t.len() && t[m] == y;
                        assert(v[m] == y);
                        assert(v.contains(v[m]));
                    }
                } else {
                    assert(v.contains(v[v.len() - 1]));
                }
            }
            if v.contains(y) {
                let k = choose|k: int| 0 <= k < v.len() && v[k] == y;
                if k < v.len() - 1 {
                    assert(t[k] == y);
                    assert(t.contains(t[k]));
                    assert(s.contains(y));
                    let m = choose|m: int| 0 <= m < s.len() && s[m] == y;
                    assert(r[m] == y);
                    assert(r.contains(r[m]));
                } else {
                    assert(r[r.len() - 1] == y);
                    assert(r.contains(r[r.len() - 1]));
                }
            }
            if y == x {
                let m = choose|m: int| 0 <= m < s.len() && s[m] == x;
                assert(r[m] == x);
                assert(r.contains(r[m]));
            }
        }
        let m = choose|m: int| 0 <= m < s.len() && s[m] == x;
        assert(r[m] == x);
        assert(r.contains(r[m]));
    } else {
        assert(r == v.push(x));
        assert forall|i: int, j: int| 0 <= i < j < r.len() implies !track_before(r[j], r[i]) by {
            if j == v.len() {
                assert(r[i] == v[i] && r[j] == x);
                if i < v.len() - 1 {
                    assert(!track_before(v[v.len() - 1], v[i]));
                }
            } else {
                assert(r[i] == v[i] && r[j] == v[j]);
            }
        }
        assert forall|y: SongData| r.contains(y) <==> (v.contains(y) || y == x) by {
            if r.contains(y) {
                let k = choose|k: int| 0 <= k < r.len() && r[k] == y;
                if k < v.len() {
                    assert(v.contains(v[k]));
                }
            }
            if v.contains(y) {
                let k = choose|k: int| 0 <= k < v.len() && v[k] == y;
                assert(r.contains(r[k]));
            }
            if y == x {
                assert(r.contains(r[v.len() as int]));
            }
        }
        assert(r[v.len() as int] == x);
        assert(r.contains(r[v.len() as int]));
    }
}

/// Insert a song into a list sorted by disc and number, at its stable
/// position.
fn insert_sorted_song_by_track(list: &mut Vec<Song>, item: Song)
    ensures
        song_views(final(list)@) == insert_song_by_track(song_views(old(list)@), item@),
{
    let ghost v = song_views(list@);
    let ghost x = item@;
    let mut i: usize = list.len();
    proof {
        assert(v.take(i as int) =~= v);
        assert(insert_song_by_track(v, x) + v.skip(i as int) =~= insert_song_by_track(v, x));
    }
    #[verifier::loop_isolation(false)]
    while i > 0 && track_before_exec(&item, &list[i - 1])
        invariant
            i <= list@.len(),
            list@ == old(list)@,
            insert_song_by_track(v, x) == insert_song_by_track(v.take(i as int), x) + v.skip(
                i as int,
            ),
        decreases i,
    {
        proof {
            assert(v.take(i as int).last() == v[i - 1]);
            assert(v.take(i as int).drop_last() =~= v.take(i - 1));
            assert(insert_song_by_track(v.take(i - 1), x).push(v[i - 1]) + v.skip(i as int)
                =~= insert_song_by_track(v.take(i - 1), x) + v.skip(i - 1));
        }
        i -= 1;
    }
    proof {
        if i == 0 {
            assert(v.take(0) =~= Seq::<SongData>::empty());
            assert(insert_song_by_track(v, x) =~= seq![x] + v);
        } else {
            assert(v.take(i as int).last() == v[i - 1]);
        }
        assert(insert_song_by_track(v, x) == v.take(i as int).push(x) + v.skip(i as int));
    }
    list.insert(i, item);
    proof {
        assert(song_views(list@) =~= v.take(i as int).push(x) + v.skip(i as int));
    }
}

/// Whether the list holds a string equal to `item`.
fn contains_str(list: &Vec<String>, item: &String) -> (r: bool)
    ensures
        r == string_views(list@).contains(item@),
{
    let n = list.len();
    let mut found = false;
    #[verifier::loop_isolation(false)]
    for k in 0..n
        invariant
            found == exists|j: int| 0 <= j < k && list@[j]@ == item@,
    {
        if list[k] == *item {
            found = true;
        }
    }
    proof {
        if found {
            let j = choose|j: int| 0 <= j < list@.len() && list@[j]@ == item@;
            assert(string_views(list@)[j] == item@);
        }
        if string_views(list@).contains(item@) {
            let j = choose|j: int|
                0 <= j < string_views(list@).len() && string_views(list@)[j] == item@;
            assert(list@[j]@ == item@);
        }
    }
    found
}

/// Every song paired with its position, which stands in for its row id.
pub fn get_all_songs(songs: &Vec<Song>) -> (r: Vec<(usize, Song)>)
    ensures
        r@.len() == songs@.len(),
        forall|i: int|
            0 <= i < r@.len() ==> (#[trigger] r@[i]).0 == i && r@[i].1@ == songs@[i]@,
{
    let n = songs.len();
    let mut out: Vec<(usize, Song)> = Vec::new();
    #[verifier::loop_isolation(false)]
    for k in 0..n
        invariant
            out@.len() == k,
            forall|i: int| 0 <= i < k ==> (#[trigger] out@[i]).0 == i && out@[i].1@ == songs@[i]@,
    {
        let ghost before = out@;
        let song_k = songs[k].clone();
        let ghost ck = song_k@;
        out.push((k, song_k));
        proof {
            assert(out@ == before.push(out@[k as int]));
            assert(out@[k as int].0 == k);
            assert(out@[k as int].1@ == ck);
            assert forall|i: int|
                0 <= i < k + 1 implies (#[trigger] out@[i]).0 == i && out@[i].1@ == songs@[i]@ by {
                if i < k {
                    assert(out@[i] == before[i]);
                }
            }
        }
    }
    out
}

/// The distinct artists of the index, sorted ascending case-insensitively;
/// artists whose folded names are equal stand in the order of their first
/// song.
pub open spec fn distinct_artists(songs: Seq<SongData>) -> Seq<Seq<char>>
    decreases songs.len(),
{
    if songs.len() == 0 {
        Seq::<Seq<char>>::empty()
    } else {
        let rest = distinct_artists(songs.drop_last());
        if rest.contains(songs.last().artist) {
            rest
        } else {
            insert_nocase(rest, songs.last().artist)
        }
    }
}

/// What the artist listing promises: it is sorted ascending
/// case-insensitively, holds no artist twice, and holds exactly the artists
/// that appear in the index's songs.
pub proof fn lemma_artist_listing_correct(songs: Seq<SongData>)
    ensures
        nocase_sorted(distinct_artists(songs)),
        distinct_entries(distinct_artists(songs)),
        forall|a: Seq<char>|
            distinct_artists(songs).contains(a) <==> exists|i: int|
                0 <= i < songs.len() && songs[i].artist == a,
    decreases songs.len(),
{
    let r = distinct_artists(songs);
    if songs.len() == 0 {
    } else {
        let t = songs.drop_last();
        let rest = distinct_artists(t);
        let last = songs.last().artist;
        lemma_artist_listing_correct(t);
        if !rest.contains(last) {
            lemma_insert_nocase_sorted(rest, last);
        }
        assert forall|a: Seq<char>|
            r.contains(a) <==> exists|i: int|
                0 <= i < songs.len() && songs[i].artist == a by {
            if r.contains(a) {
                if rest.contains(a) {
                    let i = choose|i: int| 0 <= i < t.len() && t[i].artist == a;
                    assert(songs[i].artist == a);
                } else {
                    assert(a == last);
                    assert(songs[songs.len() - 1].artist == a);
                }
            }
            if exists|i: int| 0 <= i < songs.len() && songs[i].artist == a {
                let i = choose|i: int| 0 <= i < songs.len() && songs[i].artist == a;
                if i < songs.len() - 1 {
                    assert(t[i].artist == a);
                    assert(rest.contains(a));
                } else {
                    assert(a == last);
                }
                assert(r.contains(a));
            }
        }
    }
}

/// Every artist with at least one song, without duplicates, sorted
/// ascending case-insensitively.
pub fn get_all_artists(songs: &Vec<Song>) -> (r: Vec<String>)
    ensures
        string_views(r@) == distinct_artists(song_views(songs@)),
{
    let n = songs.len();
    let mut out: Vec<String> = Vec::new();
    #[verifier::loop_isolation(false)]
    for k in 0..n
        invariant
            string_views(out@) == distinct_artists(song_views(songs@.take(k as int))),
    {
        proof {
            assert(song_views(songs@.take(k + 1)).drop_last() =~= song_views(
                songs@.take(k as int),
            ));
            assert(song_views(songs@.take(k + 1)).last() == songs@[k as int]@);
        }
        let artist = &songs[k].artist;
        if !contains_str(&out, artist) {
            insert_sorted_nocase(&mut out, artist.clone());
        }
    }
    proof {
        assert(songs@.take(n as int) =~= songs@);
    }
    out
}

/// The distinct albums of one artist, sorted ascending case-insensitively;
/// albums whose folded names are equal stand in the order of their first
/// song.
pub open spec fn distinct_albums_by(songs: Seq<SongData>, artist: Seq<char>) -> Seq<Seq<char>>
    decreases songs.len(),
{
    if songs.len() == 0 {
        Seq::<Seq<char>>::empty()
    } else {
        let rest = distinct_albums_by(songs.drop_last(), artist);
        if songs.last().artist == artist && !rest.contains(songs.last().album) {
            insert_nocase(rest, songs.last().album)
        } else {
            rest
        }
    }
}

/// What an artist's album listing promises: it is sorted ascending
/// case-insensitively, holds no album twice, and holds exactly the albums of
/// that artist's songs.
pub proof fn lemma_albums_by_listing_correct(songs: Seq<SongData>, artist: Seq<char>)
    ensures
        nocase_sorted(distinct_albums_by(songs, artist)),
        distinct_entries(distinct_albums_by(songs, artist)),
        forall|a: Seq<char>|
            distinct_albums_by(songs, artist).contains(a) <==> exists|i: int|
                0 <= i < songs.len() && songs[i].artist == artist && songs[i].album == a,
    decreases songs.len(),
{
    let r = distinct_albums_by(songs, artist);
    if songs.len() == 0 {
    } else {
        let t = songs.drop_last();
        let rest = distinct_albums_by(t, artist);
        let last = songs.last();
        lemma_albums_by_listing_correct(t, artist);
        if last.artist == artist && !rest.contains(last.album) {
            lemma_insert_nocase_sorted(rest, last.album);
        }
        assert forall|a: Seq<char>|
            r.contains(a) <==> exists|i: int|
                0 <= i < songs.len() && songs[i].artist == artist && songs[i].album == a by {
            if r.contains(a) {
                if rest.contains(a) {
                    let i = choose|i: int|
                        0 <= i < t.len() && t[i].artist == artist && t[i].album == a;
                    assert(songs[i].artist == artist && songs[i].album == a);
                } else {
                    assert(last.artist == artist && a == last.album);
                    assert(songs[songs.len() - 1].artist == artist && songs[songs.len() - 1].album
                        == a);
                }
            }
            if exists|i: int|
                0 <= i < songs.len() && songs[i].artist == artist && songs[i].album == a {
                let i = choose|i: int|
                    0 <= i < songs.len() && songs[i].artist == artist && songs[i].album == a;
                if i < songs.len() - 1 {
                    assert(t[i].artist == artist && t[i].album == a);
                    assert(rest.contains(a));
                } else {
                    assert(last.artist == artist && a == last.album);
                }
                assert(r.contains(a));
            }
        }
    }
}

/// Every album of the given artist, without duplicates, sorted ascending
/// case-insensitively.
pub fn get_all_albums_by_artist(songs: &Vec<Song>, artist: &str) -> (r: Vec<String>)
    ensures
        string_views(r@) == distinct_albums_by(song_views(songs@), artist@),
{
    let wanted = String::from_str(artist);
    let n = songs.len();
    let mut out: Vec<String> = Vec::new();
    #[verifier::loop_isolation(false)]
    for k in 0..n
        invariant
            string_views(out@) == distinct_albums_by(song_views(songs@.take(k as int)), artist@),
    {
        proof {
            assert(song_views(songs@.take(k + 1)).drop_last() =~= song_views(
                songs@.take(k as int),
            ));
            assert(song_views(songs@.take(k + 1)).last() == songs@[k as int]@);
        }
        if songs[k].artist == wanted {
            let album = &songs[k].album;
            if !contains_str(&out, album) {
                insert_sorted_nocase(&mut out, album.clone());
            }
        }
    }
    proof {
        assert(songs@.take(n as int) =~= songs@);
    }
    out
}

/// The distinct album–artist pairs, ordered ascending case-insensitively by
/// artist; pairs whose folded artists are equal stand in the order of their
/// first song.
pub open spec fn distinct_albums(songs: Seq<SongData>) -> Seq<(Seq<char>, Seq<char>)>
    decreases songs.len(),
{
    if songs.len() == 0 {
        Seq::<(Seq<char>, Seq<char>)>::empty()
    } else {
        let rest = distinct_albums(songs.drop_last());
        let pair = (songs.last().album, songs.last().artist);
        if rest.contains(pair) {
            rest
        } else {
            insert_pair_by_artist(rest, pair)
        }
    }
}

/// The views of a list of album–artist pairs.
pub open spec fn pair_views(v: Seq<(String, String)>) -> Seq<(Seq<char>, Seq<char>)> {
    v.map_values(|p: (String, String)| (p.0@, p.1@))
}

/// Whether the list holds a pair equal to the given album and artist.
fn contains_pair(list: &Vec<(String, String)>, album: &String, artist: &String) -> (r: bool)
    ensures
        r == pair_views(list@).contains((album@, artist@)),
{
    let n = list.len();
    let mut found = false;
    #[verifier::loop_isolation(false)]
    for k in 0..n
        invariant
            found == exists|j: int| 0 <= j < k && list@[j].0@ == album@ && list@[j].1@ == artist@,
    {
        if list[k].0 == *album && list[k].1 == *artist {
            found = true;
        }
    }
    proof {
        if found {
            let j = choose|j: int|
                0 <= j < list@.len() && list@[j].0@ == album@ && list@[j].1@ == artist@;
            assert(pair_views(list@)[j] == (album@, artist@));
        }
        if pair_views(list@).contains((album@, artist@)) {
            let j = choose|j: int|
                0 <= j < pair_views(list@).len() && pair_views(list@)[j] == (album@, artist@);
            assert(list@[j].0@ == album@ && list@[j].1@ == artist@);
        }
    }
    found
}

/// What the album listing promises: it is ordered ascending
/// case-insensitively by artist, holds no pair twice, and holds exactly the
/// album–artist pairs of the index's songs.
pub proof fn lemma_album_listing_correct(songs: Seq<SongData>)
    ensures
        pairs_sorted_by_artist(distinct_albums(songs)),
        distinct_pairs(distinct_albums(songs)),
        forall|p: (Seq<char>, Seq<char>)|
            distinct_albums(songs).contains(p) <==> exists|i: int|
                0 <= i < songs.len() && songs[i].album == p.0 && songs[i].artist == p.1,
    decreases songs.len(),
{
    let r = distinct_albums(songs);
    if songs.len() == 0 {
    } else {
        let t = songs.drop_last();
        let rest = distinct_albums(t);
        let last = (songs.last().album, songs.last().artist);
        lemma_album_listing_correct(t);
        if !rest.contains(last) {
            lemma_insert_pair_sorted(rest, last);
        }
        assert forall|p: (Seq<char>, Seq<char>)|
            r.contains(p) <==> exists|i: int|
                0 <= i < songs.len() && songs[i].album == p.0 && songs[i].artist == p.1 by {
            if r.contains(p) {
                if rest.contains(p) {
                    let i = choose|i: int|
                        0 <= i < t.len() && t[i].album == p.0 && t[i].artist == p.1;
                    assert(songs[i].album == p.0 && songs[i].artist == p.1);
                } else {
                    assert(p == last);
                    assert(songs[songs.len() - 1].album == p.0 && songs[songs.len() - 1].artist
                        == p.1);
                }
            }
            if exists|i: int| 0 <= i < songs.len() && songs[i].album == p.0 && songs[i].artist
                == p.1 {
                let i = choose|i: int|
                    0 <= i < songs.len() && songs[i].album == p.0 && songs[i].artist == p.1;
                if i < songs.len() - 1 {
                    assert(t[i].album == p.0 && t[i].artist == p.1);
                    assert(rest.contains(p));
                } else {
                    assert(p == last);
                }
                assert(r.contains(p));
            }
        }
    }
}

/// Every album–artist pair with at least one song, without duplicates,
/// ordered ascending case-insensitively by artist.
pub fn get_all_albums(songs: &Vec<Song>) -> (r: Vec<(String, String)>)
    ensures
        pair_views(r@) == distinct_albums(song_views(songs@)),
{
    let n = songs.len();
    let mut out: Vec<(String, String)> = Vec::new();
    #[verifier::loop_isolation(false)]
    for k in 0..n
        invariant
            pair_views(out@) == distinct_albums(song_views(songs@.take(k as int))),
    {
        proof {
            assert(song_views(songs@.take(k + 1)).drop_last() =~= song_views(
                songs@.take(k as int),
            ));
            assert(song_views(songs@.take(k + 1)).last() == songs@[k as int]@);
        }
        if !contains_pair(&out, &songs[k].album, &songs[k].artist) {
            insert_sorted_pair(&mut out, songs[k].album.clone(), songs[k].artist.clone());
        }
    }
    proof {
        assert(songs@.take(n as int) =~= songs@);
    }
    out
}

/// The songs of one artist, ordered by album (code points), then disc, then
/// track number; songs whose keys are equal stand in index order.
pub open spec fn songs_by(songs: Seq<SongData>, artist: Seq<char>) -> Seq<SongData>
    decreases songs.len(),
{
    if songs.len() == 0 {
        Seq::<SongData>::empty()
    } else {
        let rest = songs_by(songs.drop_last(), artist);
        if songs.last().artist == artist {
            insert_song_by_album(rest, songs.last())
        } else {
            rest
        }
    }
}

/// What an artist's song list promises: it is ordered ascending by album,
/// then disc, then track number.
pub proof fn lemma_artist_songs_sorted(songs: Seq<SongData>, artist: Seq<char>)
    ensures
        album_sorted(songs_by(songs, artist)),
    decreases songs.len(),
{
    if songs.len() > 0 {
        let t = songs.drop_last();
        lemma_artist_songs_sorted(t, artist);
        if songs.last().artist == artist {
            lemma_insert_song_by_album_sorted(songs_by(t, artist), songs.last());
        }
    }
}

/// Every song of the given artist, ordered by album, disc and track number.
pub fn get_songs_by_artist(songs: &Vec<Song>, artist: &str) -> (r: Vec<Song>)
    ensures
        song_views(r@) == songs_by(song_views(songs@), artist@),
{
    let wanted = String::from_str(artist);
    let n = songs.len();
    let mut out: Vec<Song> = Vec::new();
    #[verifier::loop_isolation(false)]
    for k in 0..n
        invariant
            song_views(out@) == songs_by(song_views(songs@.take(k as int)), artist@),
    {
        proof {
            assert(song_views(songs@.take(k + 1)).drop_last() =~= song_views(
                songs@.take(k as int),
            ));
            assert(song_views(songs@.take(k + 1)).last() == songs@[k as int]@);
        }
        if songs[k].artist == wanted {
            insert_sorted_song_by_album(&mut out, songs[k].clone());
        }
    }
    proof {
        assert(songs@.take(n as int) =~= songs@);
    }
    out
}

/// The songs of one album of one artist, ordered by disc, then track number;
/// songs whose keys are equal stand in index order.
pub open spec fn songs_from_album(songs: Seq<SongData>, album: Seq<char>, artist: Seq<char>) -> Seq<
    SongData,
>
    decreases songs.len(),
{
    if songs.len() == 0 {
        Seq::<SongData>::empty()
    } else {
        let rest = songs_from_album(songs.drop_last(), album, artist);
        if songs.last().artist == artist && songs.last().album == album {
            insert_song_by_track(rest, songs.last())
        } else {
            rest
        }
    }
}

/// What an album's song list promises: it is ordered ascending by disc,
/// then track number.
pub proof fn lemma_album_tracks_sorted(songs: Seq<SongData>, album: Seq<char>, artist: Seq<char>)
    ensures
        track_sorted(songs_from_album(songs, album, artist)),
    decreases songs.len(),
{
    if songs.len() > 0 {
        let t = songs.drop_last();
        lemma_album_tracks_sorted(t, album, artist);
        if songs.last().artist == artist && songs.last().album == album {
            lemma_insert_song_by_track_sorted(songs_from_album(t, album, artist), songs.last());
        }
    }
}

/// Every song of the given album by the given artist, ordered by disc and
/// track number.
pub fn get_all_songs_from_album(songs: &Vec<Song>, album: &str, artist: &str) -> (r: Vec<Song>)
    ensures
        song_views(r@) == songs_from_album(song_views(songs@), album@, artist@),
{
    let wanted_album = String::from_str(album);
    let wanted_artist = String::from_str(artist);
    let n = songs.len();
    let mut out: Vec<Song> = Vec::new();
    #[verifier::loop_isolation(false)]
    for k in 0..n
        invariant
            song_views(out@) == songs_from_album(
                song_views(songs@.take(k as int)),
                album@,
                artist@,
            ),
    {
        proof {
            assert(song_views(songs@.take(k + 1)).drop_last() =~= song_views(
                songs@.take(k as int),
            ));
            assert(song_views(songs@.take(k + 1)).last() == songs@[k as int]@);
        }
        if songs[k].artist == wanted_artist && songs[k].album == wanted_album {
            insert_sorted_song_by_track(&mut out, songs[k].clone());
        }
    }
    proof {
        assert(songs@.take(n as int) =~= songs@);
    }
    out
}

/// The songs matching a track number and name within one album of one
/// artist, in index order.
pub open spec fn songs_matching(
    songs: Seq<SongData>,
    number: u64,
    name: Seq<char>,
    album: Seq<char>,
    artist: Seq<char>,
) -> Seq<SongData>
    decreases songs.len(),
{
    if songs.len() == 0 {
        Seq::<SongData>::empty()
    } else {
        let rest = songs_matching(songs.drop_last(), number, name, album, artist);
        let s = songs.last();
        if s.name == name && s.number == number && s.artist == artist && s.album == album {
            rest.push(s)
        } else {
            rest
        }
    }
}

/// Every song with the given track number and name on the given album by the
/// given artist. `song` is the pair of track number and song name.
pub fn get_song(songs: &Vec<Song>, song: &(u64, String), album: &str, artist: &str) -> (r: Vec<
    Song,
>)
    ensures
        song_views(r@) == songs_matching(song_views(songs@), song.0, song.1@, album@, artist@),
{
    let wanted_album = String::from_str(album);
    let wanted_artist = String::from_str(artist);
    let n = songs.len();
    let mut out: Vec<Song> = Vec::new();
    #[verifier::loop_isolation(false)]
    for k in 0..n
        invariant
            song_views(out@) == songs_matching(
                song_views(songs@.take(k as int)),
                song.0,
                song.1@,
                album@,
                artist@,
            ),
    {
        proof {
            assert(song_views(songs@.take(k + 1)).drop_last() =~= song_views(
                songs@.take(k as int),
            ));
            assert(song_views(songs@.take(k + 1)).last() == songs@[k as int]@);
        }
        if songs[k].name == song.1 && songs[k].number as u64 == song.0
            && songs[k].artist == wanted_artist && songs[k].album == wanted_album {
            out.push(songs[k].clone());
            proof {
                assert(song_views(out@) =~= song_views(out@.drop_last()).push(songs@[k as int]@));
            }
        }
    }
    proof {
        assert(songs@.take(n as int) =~= songs@);
    }
    out
}

/// The songs at the given row ids, in the ids' order; an id with no row
/// contributes nothing.
pub open spec fn songs_at(songs: Seq<SongData>, ids: Seq<usize>) -> Seq<SongData>
    decreases ids.len(),
{
    if ids.len() == 0 {
        Seq::<SongData>::empty()
    } else {
        let rest = songs_at(songs, ids.drop_last());
        if ids.last() < songs.len() {
            rest.push(songs[ids.last() as int])
        } else {
            rest
        }
    }
}

/// The songs at the given row ids; an id with no row is skipped.
pub fn get_songs_from_id(songs: &Vec<Song>, ids: &[usize]) -> (r: Vec<Song>)
    ensures
        song_views(r@) == songs_at(song_views(songs@), ids@),
{
    let n = ids.len();
    let mut out: Vec<Song> = Vec::new();
    #[verifier::loop_isolation(false)]
    for k in 0..n
        invariant
            song_views(out@) == songs_at(song_views(songs@), ids@.take(k as int)),
    {
        proof {
            assert(ids@.take(k + 1).drop_last() =~= ids@.take(k as int));
            assert(ids@.take(k + 1).last() == ids@[k as int]);
            assert(song_views(songs@).len() == songs@.len());
        }
        let id = ids[k];
        if id < songs.len() {
            out.push(songs[id].clone());
            proof {
                assert(song_views(songs@)[id as int] == songs@[id as int]@);
                assert(song_views(out@) =~= song_views(out@.drop_last()).push(songs@[id as int]@));
            }
        }
    }
    proof {
        assert(ids@.take(n as int) =~= ids@);
    }
    out
}

/// The entries of `from` that `others` does not hold, in order, duplicates
/// kept.
pub open spec fn missing_from(from: Seq<Seq<char>>, others: Seq<Seq<char>>) -> Seq<Seq<char>>
    decreases from.len(),
{
    if from.len() == 0 {
        Seq::<Seq<char>>::empty()
    } else {
        let rest = missing_from(from.drop_last(), others);
        if others.contains(from.last()) {
            rest
        } else {
            rest.push(from.last())
        }
    }
}

/// What a database sync has to do: the music directories to forget, because
/// they are stored but no longer configured, and the ones to scan, because
/// they are configured but not stored yet.
pub fn sync_changes(stored: &Vec<String>, configured: &Vec<String>) -> (r: (Vec<String>, Vec<
    String,
>))
    ensures
        string_views(r.0@) == missing_from(string_views(stored@), string_views(configured@)),
        string_views(r.1@) == missing_from(string_views(configured@), string_views(stored@)),
{
    let mut to_forget: Vec<String> = Vec::new();
    let n = stored.len();
    #[verifier::loop_isolation(false)]
    for k in 0..n
        invariant
            string_views(to_forget@) == missing_from(
                string_views(stored@.take(k as int)),
                string_views(configured@),
            ),
    {
        proof {
            assert(string_views(stored@.take(k + 1)).drop_last() =~= string_views(
                stored@.take(k as int),
            ));
            assert(string_views(stored@.take(k + 1)).last() == stored@[k as int]@);
        }
        if !contains_str(configured, &stored[k]) {
            to_forget.push(stored[k].clone());
            proof {
                assert(string_views(to_forget@) =~= string_views(to_forget@.drop_last()).push(
                    stored@[k as int]@,
                ));
            }
        }
    }
    let mut to_scan: Vec<String> = Vec::new();
    let m = configured.len();
    #[verifier::loop_isolation(false)]
    for k in 0..m
        invariant
            string_views(to_scan@) == missing_from(
                string_views(configured@.take(k as int)),
                string_views(stored@),
            ),
    {
        proof {
            assert(string_views(configured@.take(k + 1)).drop_last() =~= string_views(
                configured@.take(k as int),
            ));
            assert(string_views(configured@.take(k + 1)).last() == configured@[k as int]@);
        }
        if !contains_str(stored, &configured[k]) {
            to_scan.push(configured[k].clone());
            proof {
                assert(string_views(to_scan@) =~= string_views(to_scan@.drop_last()).push(
                    configured@[k as int]@,
                ));
            }
        }
    }
    proof {
        assert(stored@.take(n as int) =~= stored@);
        assert(configured@.take(m as int) =~= configured@);
    }
    (to_forget, to_scan)
}

/// The short form of a song that the library browser lists.
#[derive(Debug)]
pub struct MinSong {
    path: String,
    album: String,
    artist: String,
    name: String,
    track: u16,
}

/// Mathematical image of a [`MinSong`].
pub struct MinSongData {
    pub path: Seq<char>,
    pub album: Seq<char>,
    pub artist: Seq<char>,
    pub name: Seq<char>,
    pub track: u16,
}

impl View for MinSong {
    type V = MinSongData;

    closed spec fn view(&self) -> MinSongData {
        MinSongData {
            path: self.path@,
            album: self.album@,
            artist: self.artist@,
            name: self.name@,
            track: self.track,
        }
    }
}

impl MinSong {
    /// A browser entry from its plain fields; the caller reads them out of
    /// the audio file's tags.
    pub fn new(path: String, album: String, artist: String, name: String, track: u16) -> (r:
        MinSong)
        ensures
            r@.path == path@,
            r@.album == album@,
            r@.artist == artist@,
            r@.name == name@,
            r@.track == track,
    {
        MinSong { path, album, artist, name, track }
    }
}

} // verus!
