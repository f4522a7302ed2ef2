//! Songs and the metadata they are built from.
//!
//! A song's fields come from the tags of an audio file. Reading the tags out
//! of the file is the decoder's business; building the song from the tag list
//! is pure and happens here, track and disc numbers parsed from their decimal
//! text with 1 as the fallback.

use vstd::prelude::*;

verus! {

use vstd::string::StrSliceExecFns;

/// A song of the library, fields as the tags gave them.
#[derive(Debug)]
pub struct Song {
    pub number: u16,
    pub disc: u16,
    pub name: String,
    pub album: String,
    pub artist: String,
    pub path: String,
}

/// Mathematical image of a [`Song`]: the same fields with strings as
/// character sequences.
pub struct SongData {
    pub number: u16,
    pub disc: u16,
    pub name: Seq<char>,
    pub album: Seq<char>,
    pub artist: Seq<char>,
    pub path: Seq<char>,
}

impl View for Song {
    type V = SongData;

    open spec fn view(&self) -> SongData {
        SongData {
            number: self.number,
            disc: self.disc,
            name: self.name@,
            album: self.album@,
            artist: self.artist@,
            path: self.path@,
        }
    }
}

impl Clone for Song {
    /// An equal song, field by field.
    fn clone(&self) -> (r: Song)
        ensures
            r@ == self@,
    {
        Song {
            number: self.number,
            disc: self.disc,
            name: self.name.clone(),
            album: self.album.clone(),
            artist: self.artist.clone(),
            path: self.path.clone(),
        }
    }
}

impl PartialEq for Song {
    /// Songs are equal when every field agrees.
    fn eq(&self, other: &Self) -> (r: bool) {
        self.number == other.number && self.disc == other.disc && self.name == other.name
            && self.album == other.album && self.artist == other.artist && self.path == other.path
    }
}

impl vstd::std_specs::cmp::PartialEqSpecImpl for Song {
    open spec fn obeys_eq_spec() -> bool {
        true
    }

    open spec fn eq_spec(&self, other: &Song) -> bool {
        self@ == other@
    }
}

impl Default for Song {
    /// A song with empty strings and zero numbers.
    fn default() -> (r: Song)
        ensures
            r.number == 0,
            r.disc == 0,
            r@.name == Seq::<char>::empty(),
            r@.album == Seq::<char>::empty(),
            r@.artist == Seq::<char>::empty(),
            r@.path == Seq::<char>::empty(),
    {
        Song {
            number: 0,
            disc: 0,
            name: String::new(),
            album: String::new(),
            artist: String::new(),
            path: String::new(),
        }
    }
}

/// An ASCII decimal digit.
pub open spec fn is_digit(c: char) -> bool {
    '0' as u32 <= c as u32 <= '9' as u32
}

/// The value of one digit.
pub open spec fn digit_val(c: char) -> int {
    c as u32 - '0' as u32
}

/// All characters are digits.
pub open spec fn all_digits(s: Seq<char>) -> bool {
    forall|i: int| 0 <= i < s.len() ==> is_digit(s[i])
}

/// The number a digit string denotes, most significant digit first.
pub open spec fn digits_val(s: Seq<char>) -> int
    decreases s.len(),
{
    if s.len() == 0 {
        0
    } else {
        digits_val(s.drop_last()) * 10 + digit_val(s.last())
    }
}

/// The digits of `s` after its optional leading plus sign.
pub open spec fn decimal_body(s: Seq<char>) -> Seq<char> {
    if s.len() >= 1 && s[0] == '+' {
        s.skip(1)
    } else {
        s
    }
}

/// Whether `s` is a decimal numeral that fits in a `u16`: an optional plus
/// sign, then one or more digits, denoting at most `u16::MAX`.
pub open spec fn parses_as_u16(s: Seq<char>) -> bool {
    &&& decimal_body(s).len() > 0
    &&& all_digits(decimal_body(s))
    &&& digits_val(decimal_body(s)) <= u16::MAX
}

/// Powers of ten.
pub open spec fn pow10(n: nat) -> int
    decreases n,
{
    if n == 0 {
        1
    } else {
        10 * pow10((n - 1) as nat)
    }
}

/// Leading zeros do not change a digit string's value.
proof fn lemma_skip_leading_zeros(s: Seq<char>, i: int)
    requires
        0 <= i <= s.len(),
        forall|j: int| 0 <= j < i ==> s[j] as u32 == '0' as u32,
    ensures
        digits_val(s) == digits_val(s.skip(i)),
    decreases s.len(),
{
    if i == 0 {
        assert(s.skip(0) =~= s);
    } else if s.len() == i {
        lemma_all_zeros_val(s);
        assert(s.skip(i) =~= Seq::<char>::empty());
    } else {
        assert(s.drop_last().skip(i) =~= s.skip(i).drop_last());
        assert(s.skip(i).last() == s.last());
        lemma_skip_leading_zeros(s.drop_last(), i);
    }
}

/// A string of zeros denotes zero.
proof fn lemma_all_zeros_val(s: Seq<char>)
    requires
        forall|j: int| 0 <= j < s.len() ==> s[j] as u32 == '0' as u32,
    ensures
        digits_val(s) == 0,
    decreases s.len(),
{
    if s.len() > 0 {
        lemma_all_zeros_val(s.drop_last());
    }
}

/// A digit string starting with a nonzero digit denotes at least the power of
/// ten of its length.
proof fn lemma_digits_lower_bound(s: Seq<char>)
    requires
        s.len() > 0,
        all_digits(s),
        s[0] as u32 != '0' as u32,
    ensures
        digits_val(s) >= pow10((s.len() - 1) as nat),
    decreases s.len(),
{
    if s.len() == 1 {
        assert(is_digit(s[0]));
        assert(digit_val(s[0]) >= 1);
        assert(digits_val(s.drop_last()) == 0);
    } else {
        let t = s.drop_last();
        assert(t[0] == s[0]);
        assert forall|i: int| 0 <= i < t.len() implies is_digit(t[i]) by {
            assert(t[i] == s[i]);
        }
        lemma_digits_lower_bound(t);
        assert(pow10((s.len() - 1) as nat) == 10 * pow10((s.len() - 2) as nat));
        assert(is_digit(s.last()));
        assert(digit_val(s.last()) >= 0);
        assert(digits_val(t) * 10 >= pow10((s.len() - 2) as nat) * 10);
    }
}

/// A digit string denotes less than the power of ten of its length.
proof fn lemma_digits_upper_bound(s: Seq<char>)
    requires
        all_digits(s),
    ensures
        0 <= digits_val(s) < pow10(s.len()),
    decreases s.len(),
{
    if s.len() > 0 {
        lemma_digits_upper_bound(s.drop_last());
        assert(digit_val(s.last()) <= 9);
    }
}

/// Parse a decimal numeral into a `u16`, exactly when [`parses_as_u16`] says
/// the text denotes one: an optional plus sign, digits, value at most
/// `u16::MAX`. Anything else gives nothing.
pub fn parse_u16(s: &str) -> (r: Option<u16>)
    ensures
        parses_as_u16(s@) ==> (r matches Some(v) && v == digits_val(decimal_body(s@))),
        !parses_as_u16(s@) ==> r is None,
{
    let n = s.unicode_len();
    let start: usize = if n > 0 && s.get_char(0) == '+' {
        1
    } else {
        0
    };
    proof {
        assert(decimal_body(s@) =~= s@.skip(start as int));
    }
    if start >= n {
        return None;
    }
    let ghost body = s@.skip(start as int);

    let mut k = start;
    #[verifier::loop_isolation(false)]
    while k < n
        invariant
            start <= k <= n,
            forall|i: int| start <= i < k ==> is_digit(s@[i]),
        decreases n - k,
    {
        let c = s.get_char(k);
        if (c as u32) < ('0' as u32) || (c as u32) > ('9' as u32) {
            proof {
                assert(body[k - start] == s@[k as int]);
                assert(!all_digits(body)) by {
                    if all_digits(body) {
                        assert(is_digit(body[k - start]));
                    }
                }
            }
            return None;
        }
        k += 1;
    }
    proof {
        assert forall|j: int| 0 <= j < body.len() implies is_digit(body[j]) by {
            assert(body[j] == s@[start + j]);
        }
    }

    // Skip leading zeros so that the remaining digits bound the value.
    let mut z = start;
    #[verifier::loop_isolation(false)]
    while z < n && (s.get_char(z) as u32) == ('0' as u32)
        invariant
            start <= z <= n,
            forall|i: int| start <= i < z ==> s@[i] as u32 == '0' as u32,
        decreases n - z,
    {
        z += 1;
    }
    proof {
        assert forall|j: int| 0 <= j < z - start implies body[j] as u32 == '0' as u32 by {
            assert(body[j] == s@[start + j]);
        }
        lemma_skip_leading_zeros(body, z - start);
        assert(body.skip(z - start) =~= s@.skip(z as int));
    }
    let ghost rest = s@.skip(z as int);
    proof {
        assert forall|j: int| 0 <= j < rest.len() implies is_digit(rest[j]) by {
            assert(rest[j] == body[j + (z - start)]);
        }
    }

    if n - z > 5 {
        proof {
            assert(rest[0] == s@[z as int]);
            lemma_digits_lower_bound(rest);
            assert(pow10((rest.len() - 1) as nat) >= pow10(5)) by {
                lemma_pow10_increases(5, (rest.len() - 1) as nat);
            }
            reveal_with_fuel(pow10, 6);
            assert(pow10(5) == 100000);
        }
        return None;
    }

    let mut val: u32 = 0;
    let mut m = z;
    #[verifier::loop_isolation(false)]
    while m < n
        invariant
            z <= m <= n,
            val == digits_val(s@.subrange(z as int, m as int)),
        decreases n - m,
    {
        let c = s.get_char(m);
        proof {
            assert forall|j: int|
                0 <= j < s@.subrange(z as int, m as int).len() implies is_digit(
                s@.subrange(z as int, m as int)[j],
            ) by {
                assert(s@.subrange(z as int, m as int)[j] == body[j + (z - start)]);
            }
            lemma_digits_upper_bound(s@.subrange(z as int, m as int));
            assert(pow10((m - z) as nat) <= pow10(5)) by {
                lemma_pow10_increases((m - z) as nat, 5);
            }
            reveal_with_fuel(pow10, 6);
            assert(pow10(5) == 100000);
            assert(s@.subrange(z as int, m + 1).drop_last() =~= s@.subrange(z as int, m as int));
            assert(s@.subrange(z as int, m + 1).last() == s@[m as int]);
            assert(is_digit(s@[m as int])) by {
                assert(s@[m as int] == body[m - start]);
            }
        }
        val = val * 10 + (c as u32 - '0' as u32);
        m += 1;
    }
    proof {
        assert(s@.subrange(z as int, n as int) =~= rest);
    }
    if val > 65535 {
        return None;
    }
    Some(val as u16)
}

/// The standard metadata keys a song is built from; anything else is carried
/// as `Other` and ignored.
#[derive(Clone, Copy, Debug, PartialEq, Eq, Structural)]
pub enum TagKind {
    AlbumArtist,
    Artist,
    Album,
    TrackTitle,
    TrackNumber,
    DiscNumber,
    Other,
}

/// One metadata tag of an audio file: a key and its text.
#[derive(Clone, Debug)]
pub struct Tag {
    pub kind: TagKind,
    pub value: String,
}

/// Mathematical image of a [`Tag`].
pub struct TagData {
    pub kind: TagKind,
    pub value: Seq<char>,
}

impl View for Tag {
    type V = TagData;

    open spec fn view(&self) -> TagData {
        TagData { kind: self.kind, value: self.value@ }
    }
}

/// The number a tag's text denotes, or 1 when it does not denote a `u16`.
pub open spec fn number_or_one(s: Seq<char>) -> u16 {
    if parses_as_u16(s) {
        digits_val(decimal_body(s)) as u16
    } else {
        1u16
    }
}

/// A song with no tags applied: empty strings, zero numbers, the given path.
pub open spec fn blank_song(path: Seq<char>) -> SongData {
    SongData {
        number: 0,
        disc: 0,
        name: Seq::<char>::empty(),
        album: Seq::<char>::empty(),
        artist: Seq::<char>::empty(),
        path: path,
    }
}

/// One tag applied to a song under construction. An album artist always
/// becomes the artist; a plain artist only when no artist is set yet, so that
/// an album artist seen earlier wins.
pub open spec fn apply_tag(song: SongData, tag: TagData) -> SongData {
    match tag.kind {
        TagKind::AlbumArtist => SongData { artist: tag.value, ..song },
        TagKind::Artist => if song.artist.len() == 0 {
            SongData { artist: tag.value, ..song }
        } else {
            song
        },
        TagKind::Album => SongData { album: tag.value, ..song },
        TagKind::TrackTitle => SongData { name: tag.value, ..song },
        TagKind::TrackNumber => SongData { number: number_or_one(tag.value), ..song },
        TagKind::DiscNumber => SongData { disc: number_or_one(tag.value), ..song },
        TagKind::Other => song,
    }
}

/// The tags applied in order, first to last.
pub open spec fn apply_tags(song: SongData, tags: Seq<TagData>) -> SongData
    decreases tags.len(),
{
    if tags.len() == 0 {
        song
    } else {
        apply_tag(apply_tags(song, tags.drop_last()), tags.last())
    }
}

impl Song {
    /// The song a tag list describes: the tags folded in order onto a blank
    /// song with the given path. A song without an artist is no song;
    /// then nothing is returned.
    pub fn from_tags(path: String, tags: &Vec<Tag>) -> (r: Option<Song>)
        ensures
            ({
                let built = apply_tags(blank_song(path@), tags@.map_values(|t: Tag| t@));
                &&& built.artist.len() == 0 ==> r is None
                &&& built.artist.len() > 0 ==> (r matches Some(song) && song@ == built)
            }),
    {
        let ghost tag_views = tags@.map_values(|t: Tag| t@);
        let ghost path_view = path@;
        let mut song = Song {
            number: 0,
            disc: 0,
            name: String::new(),
            album: String::new(),
            artist: String::new(),
            path,
        };
        let n = tags.len();
        #[verifier::loop_isolation(false)]
        for k in 0..n
            invariant
                song@ == apply_tags(blank_song(path_view), tag_views.take(k as int)),
        {
            let tag = &tags[k];
            proof {
                assert(tag_views.take(k + 1).drop_last() =~= tag_views.take(k as int));
                assert(tag_views.take(k + 1).last() == tag_views[k as int]);
            }
            match tag.kind {
                TagKind::AlbumArtist => song.artist = tag.value.clone(),
                TagKind::Artist => {
                    if song.artist.as_str().is_empty() {
                        song.artist = tag.value.clone();
                    }
                },
                TagKind::Album => song.album = tag.value.clone(),
                TagKind::TrackTitle => song.name = tag.value.clone(),
                TagKind::TrackNumber => {
                    song.number = match parse_u16(tag.value.as_str()) {
                        Some(v) => v,
                        None => 1,
                    };
                },
                TagKind::DiscNumber => {
                    song.disc = match parse_u16(tag.value.as_str()) {
                        Some(v) => v,
                        None => 1,
                    };
                },
                TagKind::Other => (),
            }
        }
        proof {
            assert(tag_views.take(n as int) =~= tag_views);
        }
        if song.artist.as_str().is_empty() {
            None
        } else {
            Some(song)
        }
    }
}

/// `pow10` is monotone.
proof fn lemma_pow10_increases(a: nat, b: nat)
    requires
        a <= b,
    ensures
        pow10(a) <= pow10(b),
    decreases b,
{
    if a < b {
        lemma_pow10_increases(a, (b - 1) as nat);
        assert(pow10((b - 1) as nat) >= 1) by {
            lemma_pow10_positive((b - 1) as nat);
        }
    }
}

/// `pow10` is positive.
proof fn lemma_pow10_positive(n: nat)
    ensures
        pow10(n) >= 1,
    decreases n,
{
    if n > 0 {
        lemma_pow10_positive((n - 1) as nat);
    }
}

} // verus!
