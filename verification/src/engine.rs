//! The engine probe: what the VDPAU device is, and what it can decode.
//!
//! VDPAU shows one device for an X display, so a probe reports one device or
//! none. The driver is asked about one profile at a time; [`CapsProbe`] says
//! which profile comes next and collects the answers.

use crate::device::{DecoderCaps, Failure, VdpError};
use crate::profile::Profile;
use crate::sys::VdpDecoderProfile;
use crate::text::decimal_text;
use vstd::prelude::*;
use vstd::string::*;

verus! {

// The banner.

/// True for the characters that Unicode counts as white space.
pub open spec fn white(c: char) -> bool {
    ||| 0x09 <= c as int <= 0x0d
    ||| c as int == 0x20
    ||| c as int == 0x85
    ||| c as int == 0xa0
    ||| c as int == 0x1680
    ||| 0x2000 <= c as int <= 0x200a
    ||| c as int == 0x2028
    ||| c as int == 0x2029
    ||| c as int == 0x202f
    ||| c as int == 0x205f
    ||| c as int == 0x3000
}

/// Whether Unicode counts `c` as white space.
pub fn is_white(c: char) -> (w: bool)
    ensures
        w == white(c),
{
    let n: u32 = c as u32;
    (0x09 <= n && n <= 0x0d) || n == 0x20 || n == 0x85 || n == 0xa0 || n == 0x1680 || (0x2000 <= n
        && n <= 0x200a) || n == 0x2028 || n == 0x2029 || n == 0x202f || n == 0x205f || n == 0x3000
}

/// The position of the first line break from `i` on, or the end.
pub open spec fn line_end(s: Seq<char>, i: int) -> int
    decreases s.len() - i,
{
    if i < 0 || i >= s.len() {
        s.len() as int
    } else if s[i] == '\n' {
        i
    } else {
        line_end(s, i + 1)
    }
}

/// The position of the first character from `i` on that is not white space,
/// or the end.
pub open spec fn word_start(s: Seq<char>, i: int) -> int
    decreases s.len() - i,
{
    if i < 0 || i >= s.len() {
        s.len() as int
    } else if !white(s[i]) {
        i
    } else {
        word_start(s, i + 1)
    }
}

/// The position of the first white space from `i` on, or the end.
pub open spec fn word_end(s: Seq<char>, i: int) -> int
    decreases s.len() - i,
{
    if i < 0 || i >= s.len() {
        s.len() as int
    } else if white(s[i]) {
        i
    } else {
        word_end(s, i + 1)
    }
}

/// `s` without white space at either end.
pub open spec fn trimmed(s: Seq<char>) -> Seq<char>
    decreases s.len(),
{
    if s.len() == 0 {
        s
    } else if white(s[0]) {
        trimmed(s.skip(1))
    } else if white(s.last()) {
        trimmed(s.drop_last())
    } else {
        s
    }
}

proof fn lemma_trimmed_front(s: Seq<char>, k: int)
    requires
        0 <= k <= s.len(),
        forall|i: int| 0 <= i < k ==> white(#[trigger] s[i]),
    ensures
        trimmed(s) == trimmed(s.skip(k)),
    decreases k,
{
    if k > 0 {
        assert(white(s[0]));
        assert forall|i: int| 0 <= i < k - 1 implies white(#[trigger] s.skip(1)[i]) by {
            assert(s.skip(1)[i] == s[i + 1]);
        }
        lemma_trimmed_front(s.skip(1), k - 1);
        assert(s.skip(1).skip(k - 1) == s.skip(k));
    } else {
        assert(s.skip(0) == s);
    }
}

proof fn lemma_trimmed_back(s: Seq<char>, k: int)
    requires
        0 < k <= s.len(),
        !white(s[0]),
        forall|i: int| k <= i < s.len() ==> white(#[trigger] s[i]),
        !white(s[k - 1]),
    ensures
        trimmed(s) == s.take(k),
    decreases s.len(),
{
    if k < s.len() {
        assert(white(s[s.len() - 1]));
        lemma_trimmed_back(s.drop_last(), k);
        assert(s.drop_last().take(k) == s.take(k));
    } else {
        assert(s.take(k) == s);
    }
}

/// The name in a banner: its first line without white space at either end.
pub open spec fn device_name(info: Seq<char>) -> Seq<char> {
    trimmed(info.take(line_end(info, 0)))
}

/// Take the name out of the driver's banner.
pub fn parse_device_name(info: &str) -> (name: String)
    ensures
        name@ == device_name(info@),
{
    let ghost s = info@;
    let n: usize = info.unicode_len();
    let mut end: usize = 0;
    while end < n && info.get_char(end) != '\n'
        invariant
            end <= n == s.len(),
            s == info@,
            line_end(s, 0) == line_end(s, end as int),
        decreases n - end,
    {
        end = end + 1;
    }
    let ghost line = s.take(end as int);
    let mut from: usize = 0;
    while from < end && is_white(info.get_char(from))
        invariant
            from <= end <= n == s.len(),
            s == info@,
            line == s.take(end as int),
            forall|i: int| 0 <= i < from ==> white(#[trigger] line[i]),
        decreases end - from,
    {
        from = from + 1;
    }
    let mut to: usize = end;
    while to > from && is_white(info.get_char(to - 1))
        invariant
            from <= to <= end <= n == s.len(),
            s == info@,
            line == s.take(end as int),
            forall|i: int| to <= i < end ==> white(#[trigger] line[i]),
        decreases to,
    {
        to = to - 1;
    }
    proof {
        lemma_trimmed_front(line, from as int);
        let rest = line.skip(from as int);
        if from < end {
            assert(!white(line[from as int]));
            assert(rest[0] == line[from as int]);
            assert(to > from);
            assert(rest[to - from - 1] == line[to - 1]);
            assert forall|i: int| to - from <= i < rest.len() implies white(#[trigger] rest[i]) by {
                assert(rest[i] == line[i + from]);
            }
            lemma_trimmed_back(rest, to - from);
            assert(rest.take(to - from) == s.subrange(from as int, to as int));
        } else {
            assert(rest == s.subrange(from as int, to as int));
        }
    }
    info.substring_char(from, to).to_owned()
}

/// True if `c` is an ASCII digit.
pub open spec fn digit(c: char) -> bool {
    '0' <= c <= '9'
}

/// True if `word` is a version number: digits and dots, a digit in front, and
/// at least one dot.
pub open spec fn version_shaped(word: Seq<char>) -> bool {
    &&& word.len() > 0
    &&& digit(word[0])
    &&& word.contains('.')
    &&& forall|i: int| 0 <= i < word.len() ==> digit(#[trigger] word[i]) || word[i] == '.'
}

pub proof fn lemma_word_bounds(s: Seq<char>, i: int)
    requires
        0 <= i <= s.len(),
    ensures
        i <= word_start(s, i) <= s.len(),
        word_start(s, i) < s.len() ==> !white(s[word_start(s, i)]),
        i <= word_end(s, i) <= s.len(),
    decreases s.len() - i,
{
    if i < s.len() {
        lemma_word_bounds(s, i + 1);
    }
}

/// The first version number among the words of `s` from `i` on.
pub open spec fn first_version(s: Seq<char>, i: int) -> Option<Seq<char>>
    decreases s.len() - i,
{
    let start = word_start(s, i);
    let end = word_end(s, start);
    if i < 0 || start >= s.len() {
        None
    } else if version_shaped(s.subrange(start, end)) {
        Some(s.subrange(start, end))
    } else {
        proof {
            lemma_word_bounds(s, i);
            lemma_word_bounds(s, start + 1);
        }
        first_version(s, end)
    }
}

/// Whether the characters from `start` to `end` are a version number.
fn is_version(info: &str, start: usize, end: usize) -> (shaped: bool)
    requires
        start <= end <= info@.len(),
    ensures
        shaped == version_shaped(info@.subrange(start as int, end as int)),
{
    let ghost word = info@.subrange(start as int, end as int);
    if start == end {
        return false;
    }
    let first: char = info.get_char(start);
    assert(first == word[0]);
    if !('0' <= first && first <= '9') {
        return false;
    }
    let mut dot: bool = false;
    let mut i: usize = start;
    while i < end
        invariant
            start <= i <= end <= info@.len(),
            word == info@.subrange(start as int, end as int),
            dot ==> word.contains('.'),
            forall|k: int| 0 <= k < i - start ==> digit(#[trigger] word[k]) || word[k] == '.',
            forall|k: int| 0 <= k < i - start && #[trigger] word[k] == '.' ==> dot,
        decreases end - i,
    {
        let c: char = info.get_char(i);
        assert(c == word[i - start]);
        if c == '.' {
            dot = true;
        } else if !('0' <= c && c <= '9') {
            return false;
        }
        i = i + 1;
    }
    dot
}

/// Pick the version number out of the driver's banner: the first word that is
/// made of digits and dots, starts with a digit and has a dot.
pub fn parse_driver_version(info: &str) -> (version: Option<String>)
    ensures
        match version {
            Some(v) => first_version(info@, 0) == Some(v@),
            None => first_version(info@, 0) is None,
        },
{
    let ghost s = info@;
    let n: usize = info.unicode_len();
    let mut i: usize = 0;
    loop
        invariant
            i <= n == s.len(),
            s == info@,
            first_version(s, 0) == first_version(s, i as int),
        decreases n - i,
    {
        let mut start: usize = i;
        while start < n && is_white(info.get_char(start))
            invariant
                i <= start <= n == s.len(),
                s == info@,
                word_start(s, i as int) == word_start(s, start as int),
            decreases n - start,
        {
            start = start + 1;
        }
        if start == n {
            return None;
        }
        let mut end: usize = start;
        while end < n && !is_white(info.get_char(end))
            invariant
                start <= end <= n == s.len(),
                s == info@,
                word_end(s, start as int) == word_end(s, end as int),
            decreases n - end,
        {
            end = end + 1;
        }
        if is_version(info, start, end) {
            return Some(info.substring_char(start, end).to_owned());
        }
        proof {
            lemma_word_bounds(s, start as int + 1);
        }
        i = end;
    }
}

/// A name has no white space at either end, and no line break in it.
pub proof fn law_name_is_one_trimmed_line(info: Seq<char>)
    ensures
        ({
            let name = device_name(info);
            &&& name.len() > 0 ==> !white(name[0]) && !white(name.last())
            &&& forall|i: int| 0 <= i < name.len() ==> #[trigger] name[i] != '\n'
        }),
{
    lemma_line_end(info, 0);
    let line = info.take(line_end(info, 0));
    assert forall|i: int| 0 <= i < line.len() implies #[trigger] line[i] != '\n' by {
        assert(line[i] == info[i]);
    }
    lemma_trimmed(line);
}

proof fn lemma_line_end(s: Seq<char>, i: int)
    requires
        0 <= i <= s.len(),
    ensures
        i <= line_end(s, i) <= s.len(),
        forall|j: int| i <= j < line_end(s, i) ==> #[trigger] s[j] != '\n',
    decreases s.len() - i,
{
    if i < s.len() && s[i] != '\n' {
        lemma_line_end(s, i + 1);
    }
}

proof fn lemma_trimmed(s: Seq<char>)
    requires
        forall|i: int| 0 <= i < s.len() ==> #[trigger] s[i] != '\n',
    ensures
        ({
            let t = trimmed(s);
            &&& t.len() > 0 ==> !white(t[0]) && !white(t.last())
            &&& forall|i: int| 0 <= i < t.len() ==> #[trigger] t[i] != '\n'
        }),
    decreases s.len(),
{
    if s.len() > 0 {
        if white(s[0]) {
            assert forall|i: int| 0 <= i < s.skip(1).len() implies #[trigger] s.skip(1)[i]
                != '\n' by {
                assert(s.skip(1)[i] == s[i + 1]);
            }
            lemma_trimmed(s.skip(1));
        } else if white(s.last()) {
            lemma_trimmed(s.drop_last());
        }
    }
}

/// A version that is picked out of a banner is a version number.
pub proof fn law_version_is_version_shaped(info: Seq<char>, i: int)
    requires
        0 <= i <= info.len(),
    ensures
        first_version(info, i) matches Some(v) ==> version_shaped(v),
    decreases info.len() - i,
{
    let start = word_start(info, i);
    let end = word_end(info, start);
    lemma_word_bounds(info, i);
    if start < info.len() && !version_shaped(info.subrange(start, end)) {
        lemma_word_bounds(info, start + 1);
        law_version_is_version_shaped(info, end);
    }
}

/// White space is what Unicode gives the property of that name.
pub proof fn law_white_space(c: char)
    ensures
        white(c) <==> seq![
            0x09int, 0x0a, 0x0b, 0x0c, 0x0d, 0x20, 0x85, 0xa0, 0x1680, 0x2000, 0x2001, 0x2002,
            0x2003, 0x2004, 0x2005, 0x2006, 0x2007, 0x2008, 0x2009, 0x200a, 0x2028, 0x2029, 0x202f,
            0x205f, 0x3000,
        ].contains(c as int),
{
    let list = seq![
        0x09int, 0x0a, 0x0b, 0x0c, 0x0d, 0x20, 0x85, 0xa0, 0x1680, 0x2000, 0x2001, 0x2002, 0x2003,
        0x2004, 0x2005, 0x2006, 0x2007, 0x2008, 0x2009, 0x200a, 0x2028, 0x2029, 0x202f, 0x205f,
        0x3000,
    ];
    let n = c as int;
    if white(c) {
        let i: int = if n <= 0x0d {
            n - 0x09
        } else if n == 0x20 {
            5
        } else if n == 0x85 {
            6
        } else if n == 0xa0 {
            7
        } else if n == 0x1680 {
            8
        } else if n <= 0x200a {
            n - 0x2000 + 9
        } else if n == 0x2028 {
            20
        } else if n == 0x2029 {
            21
        } else if n == 0x202f {
            22
        } else if n == 0x205f {
            23
        } else {
            24
        };
        assert(list[i] == n);
    }
}

/// Whatever white space stands around a name in the first line, and whatever
/// lines follow, the name is what is taken out of the banner.
pub proof fn law_name_is_found(
    lead: Seq<char>,
    name: Seq<char>,
    trail: Seq<char>,
    more: Option<Seq<char>>,
)
    requires
        forall|i: int| 0 <= i < lead.len() ==> white(#[trigger] lead[i]) && lead[i] != '\n',
        forall|i: int| 0 <= i < trail.len() ==> white(#[trigger] trail[i]) && trail[i] != '\n',
        forall|i: int| 0 <= i < name.len() ==> #[trigger] name[i] != '\n',
        name.len() > 0 ==> !white(name[0]) && !white(name.last()),
    ensures
        ({
            let line = lead + name + trail;
            let banner = match more {
                Some(rest) => line + seq!['\n'] + rest,
                None => line,
            };
            device_name(banner) == name
        }),
{
    let line = lead + name + trail;
    let banner = match more {
        Some(rest) => line + seq!['\n'] + rest,
        None => line,
    };
    let n = line.len() as int;
    assert forall|i: int| 0 <= i < n implies #[trigger] banner[i] != '\n' by {
        assert(banner[i] == line[i]);
        if i < lead.len() {
            assert(line[i] == lead[i]);
        } else if i < lead.len() + name.len() {
            assert(line[i] == name[i - lead.len()]);
        } else {
            assert(line[i] == trail[i - lead.len() - name.len()]);
        }
    }
    assert(more is Some ==> banner[n] == '\n');
    lemma_line_ends_at(banner, 0, n);
    assert(banner.take(n) == line);
    let k = if name.len() > 0 {
        lead.len() as int
    } else {
        n
    };
    assert forall|i: int| 0 <= i < k implies white(#[trigger] line[i]) by {
        if i < lead.len() {
            assert(line[i] == lead[i]);
        } else {
            assert(line[i] == trail[i - lead.len()]);
        }
    }
    lemma_trimmed_front(line, k);
    let rest = line.skip(k);
    if name.len() > 0 {
        assert(rest == name + trail);
        assert(rest.take(name.len() as int) == name);
        lemma_trimmed_back(rest, name.len() as int);
    } else {
        assert(rest == name);
    }
}

proof fn lemma_line_ends_at(s: Seq<char>, i: int, end: int)
    requires
        0 <= i <= end <= s.len(),
        forall|j: int| i <= j < end ==> #[trigger] s[j] != '\n',
        end == s.len() || s[end] == '\n',
    ensures
        line_end(s, i) == end,
    decreases end - i,
{
    if i < end {
        assert(s[i] != '\n');
        lemma_line_ends_at(s, i + 1, end);
    }
}

/// True if a word of `s` stands between `a` and `b`: no white space in it, and
/// white space or the end of the text on either side.
pub open spec fn is_word(s: Seq<char>, a: int, b: int) -> bool {
    &&& 0 <= a < b <= s.len()
    &&& forall|i: int| a <= i < b ==> !white(#[trigger] s[i])
    &&& a == 0 || white(s[a - 1])
    &&& b == s.len() || white(s[b])
}

/// True if `word` starts with a digit, holds a dot, and nothing but digits and
/// dots.
pub open spec fn reads_as_version(word: Seq<char>) -> bool {
    &&& '0' <= word[0] <= '9'
    &&& exists|i: int| 0 <= i < word.len() && #[trigger] word[i] == '.'
    &&& forall|i: int| 0 <= i < word.len() ==> '0' <= #[trigger] word[i] <= '9' || word[i] == '.'
}

/// The version is the first word of the banner that reads as one; there is none
/// exactly if no word does.
pub proof fn law_version_is_the_first_such_word(s: Seq<char>)
    ensures
        match first_version(s, 0) {
            Some(v) => exists|a: int, b: int|
                {
                    &&& #[trigger] is_word(s, a, b)
                    &&& v == s.subrange(a, b)
                    &&& reads_as_version(v)
                    &&& forall|x: int, y: int|
                        x < a && #[trigger] is_word(s, x, y) ==> !reads_as_version(s.subrange(x, y))
                },
            None => forall|x: int, y: int|
                #[trigger] is_word(s, x, y) ==> !reads_as_version(s.subrange(x, y)),
        },
{
    lemma_first_version(s, 0);
}

proof fn lemma_first_version(s: Seq<char>, i: int)
    requires
        0 <= i <= s.len(),
        i == 0 || i == s.len() || white(s[i]) || white(s[i - 1]),
    ensures
        match first_version(s, i) {
            Some(v) => exists|a: int, b: int|
                {
                    &&& #[trigger] is_word(s, a, b)
                    &&& v == s.subrange(a, b)
                    &&& reads_as_version(v)
                    &&& forall|x: int, y: int|
                        i <= x < a && #[trigger] is_word(s, x, y) ==> !reads_as_version(
                            s.subrange(x, y),
                        )
                },
            None => forall|x: int, y: int|
                i <= x && #[trigger] is_word(s, x, y) ==> !reads_as_version(s.subrange(x, y)),
        },
    decreases s.len() - i,
{
    let start = word_start(s, i);
    let end = word_end(s, start);
    lemma_gap(s, i);
    if start < s.len() {
        lemma_run(s, start);
        assert(is_word(s, start, end));
        let word = s.subrange(start, end);
        assert(version_shaped(word) <==> reads_as_version(word));
        assert forall|x: int, y: int| i <= x < end && #[trigger] is_word(s, x, y) implies x == start
            && y == end by {
            if x < start {
                assert(white(s[x]));
            } else if x > start {
                assert(!white(s[x - 1]));
            }
            if y < end {
                assert(!white(s[y]));
            } else if y > end {
                assert(white(s[end]));
            }
        }
        if !version_shaped(word) {
            lemma_first_version(s, end);
        }
    } else {
        assert forall|x: int, y: int| i <= x implies !(#[trigger] is_word(s, x, y)) by {
            if is_word(s, x, y) {
                assert(!white(s[x]));
            }
        }
    }
}

proof fn lemma_gap(s: Seq<char>, i: int)
    requires
        0 <= i <= s.len(),
    ensures
        i <= word_start(s, i) <= s.len(),
        forall|j: int| i <= j < word_start(s, i) ==> white(#[trigger] s[j]),
        word_start(s, i) < s.len() ==> !white(s[word_start(s, i)]),
    decreases s.len() - i,
{
    if i < s.len() && white(s[i]) {
        lemma_gap(s, i + 1);
    }
}

proof fn lemma_run(s: Seq<char>, i: int)
    requires
        0 <= i <= s.len(),
    ensures
        i <= word_end(s, i) <= s.len(),
        forall|j: int| i <= j < word_end(s, i) ==> !white(#[trigger] s[j]),
        word_end(s, i) < s.len() ==> white(s[word_end(s, i)]),
    decreases s.len() - i,
{
    if i < s.len() && !white(s[i]) {
        lemma_run(s, i + 1);
    }
}

// Codec capabilities.

/// The number of codec families that are reported.
pub const FAMILIES: usize = 7;

/// The name of family `k`.
pub open spec fn family(k: int) -> Seq<char> {
    if k == 0 {
        "h264"@
    } else if k == 1 {
        "hevc"@
    } else if k == 2 {
        "vp9"@
    } else if k == 3 {
        "av1"@
    } else if k == 4 {
        "mpeg2"@
    } else if k == 5 {
        "vc1"@
    } else {
        "mpeg4"@
    }
}

/// The profile whose limits are reported for family `k`.
pub open spec fn representative(k: int) -> Profile {
    if k == 0 {
        Profile::H264High
    } else if k == 1 {
        Profile::HevcMain
    } else if k == 2 {
        Profile::Vp9Profile0
    } else if k == 3 {
        Profile::Av1Main
    } else if k == 4 {
        Profile::Mpeg2Main
    } else if k == 5 {
        Profile::Vc1Advanced
    } else {
        Profile::Mpeg4Part2Asp
    }
}

/// The profiles of family `k`, in the order in which they are asked for.
pub open spec fn fan_out(k: int) -> Seq<Profile> {
    if k == 0 {
        seq![
            Profile::H264Baseline,
            Profile::H264Main,
            Profile::H264High,
            Profile::H264ConstrainedBaseline,
            Profile::H264Extended,
            Profile::H264ProgressiveHigh,
            Profile::H264ConstrainedHigh,
        ]
    } else if k == 1 {
        seq![
            Profile::HevcMain,
            Profile::HevcMain10,
            Profile::HevcMainStill,
            Profile::HevcMain12,
        ]
    } else if k == 2 {
        seq![
            Profile::Vp9Profile0,
            Profile::Vp9Profile1,
            Profile::Vp9Profile2,
            Profile::Vp9Profile3,
        ]
    } else if k == 3 {
        seq![
            Profile::Av1Main,
            Profile::Av1High,
            Profile::Av1Professional,
        ]
    } else if k == 4 {
        seq![
            Profile::Mpeg2Simple,
            Profile::Mpeg2Main,
        ]
    } else if k == 5 {
        seq![
            Profile::Vc1Simple,
            Profile::Vc1Main,
            Profile::Vc1Advanced,
        ]
    } else {
        seq![
            Profile::Mpeg4Part2Sp,
            Profile::Mpeg4Part2Asp,
        ]
    }
}

/// What is asked about one codec family.
#[derive(Debug, Clone)]
pub struct CodecQuery {
    pub codec: &'static str,
    /// Its limits are those of the family.
    pub representative: Profile,
    /// Those of them that are supported are listed.
    pub profiles: Vec<Profile>,
}

/// What is asked about family `k`.
pub fn codec_query(k: usize) -> (query: CodecQuery)
    requires
        k < FAMILIES,
    ensures
        query.codec@ == family(k as int),
        query.representative == representative(k as int),
        query.profiles@ == fan_out(k as int),
{
    let query: CodecQuery = if k == 0 {
        CodecQuery {
            codec: "h264",
            representative: Profile::H264High,
            profiles: vec![
                Profile::H264Baseline,
                Profile::H264Main,
                Profile::H264High,
                Profile::H264ConstrainedBaseline,
                Profile::H264Extended,
                Profile::H264ProgressiveHigh,
                Profile::H264ConstrainedHigh,
            ],
        }
    } else if k == 1 {
        CodecQuery {
            codec: "hevc",
            representative: Profile::HevcMain,
            profiles: vec![
                Profile::HevcMain,
                Profile::HevcMain10,
                Profile::HevcMainStill,
                Profile::HevcMain12,
            ],
        }
    } else if k == 2 {
        CodecQuery {
            codec: "vp9",
            representative: Profile::Vp9Profile0,
            profiles: vec![
                Profile::Vp9Profile0,
                Profile::Vp9Profile1,
                Profile::Vp9Profile2,
                Profile::Vp9Profile3,
            ],
        }
    } else if k == 3 {
        CodecQuery {
            codec: "av1",
            representative: Profile::Av1Main,
            profiles: vec![
                Profile::Av1Main,
                Profile::Av1High,
                Profile::Av1Professional,
            ],
        }
    } else if k == 4 {
        CodecQuery {
            codec: "mpeg2",
            representative: Profile::Mpeg2Main,
            profiles: vec![
                Profile::Mpeg2Simple,
                Profile::Mpeg2Main,
            ],
        }
    } else if k == 5 {
        CodecQuery {
            codec: "vc1",
            representative: Profile::Vc1Advanced,
            profiles: vec![
                Profile::Vc1Simple,
                Profile::Vc1Main,
                Profile::Vc1Advanced,
            ],
        }
    } else {
        CodecQuery {
            codec: "mpeg4",
            representative: Profile::Mpeg4Part2Asp,
            profiles: vec![
                Profile::Mpeg4Part2Sp,
                Profile::Mpeg4Part2Asp,
            ],
        }
    };
    assert(query.profiles@ == fan_out(k as int));
    query
}

/// Every profile is asked for in exactly one place, and in the family that it
/// belongs to.
pub proof fn law_families_partition_the_profiles(p: Profile)
    ensures
        exists|k: int, j: int|
            0 <= k < FAMILIES && 0 <= j < fan_out(k).len() && #[trigger] fan_out(k)[j] == p
                && family(k) == p.family(),
        forall|k: int, j: int, l: int, m: int|
            0 <= k < FAMILIES && 0 <= j < fan_out(k).len() && 0 <= l < FAMILIES && 0 <= m
                < fan_out(l).len() && #[trigger] fan_out(k)[j] == p && #[trigger] fan_out(l)[m] == p
                ==> k == l && j == m,
{
    let (k, j): (int, int) = match p {
        Profile::H264Baseline => (0, 0),
        Profile::H264Main => (0, 1),
        Profile::H264High => (0, 2),
        Profile::H264ConstrainedBaseline => (0, 3),
        Profile::H264Extended => (0, 4),
        Profile::H264ProgressiveHigh => (0, 5),
        Profile::H264ConstrainedHigh => (0, 6),
        Profile::HevcMain => (1, 0),
        Profile::HevcMain10 => (1, 1),
        Profile::HevcMainStill => (1, 2),
        Profile::HevcMain12 => (1, 3),
        Profile::Vp9Profile0 => (2, 0),
        Profile::Vp9Profile1 => (2, 1),
        Profile::Vp9Profile2 => (2, 2),
        Profile::Vp9Profile3 => (2, 3),
        Profile::Av1Main => (3, 0),
        Profile::Av1High => (3, 1),
        Profile::Av1Professional => (3, 2),
        Profile::Mpeg2Simple => (4, 0),
        Profile::Mpeg2Main => (4, 1),
        Profile::Vc1Simple => (5, 0),
        Profile::Vc1Main => (5, 1),
        Profile::Vc1Advanced => (5, 2),
        Profile::Mpeg4Part2Sp => (6, 0),
        Profile::Mpeg4Part2Asp => (6, 1),
    };
    assert(fan_out(k)[j] == p && family(k) == p.family());
}

/// The representative of a family is one of its profiles.
pub proof fn law_representative_is_in_family(k: int)
    requires
        0 <= k < FAMILIES,
    ensures
        fan_out(k).contains(representative(k)),
        representative(k).family() == family(k),
{
    let j: int = if k == 0 {
        2
    } else if k == 1 {
        0
    } else if k == 2 {
        0
    } else if k == 3 {
        0
    } else if k == 4 {
        1
    } else if k == 5 {
        2
    } else {
        1
    };
    assert(fan_out(k)[j] == representative(k));
}

/// Capabilities of the device for one codec.
#[derive(Debug, Clone)]
pub struct HwCodecCaps {
    pub codec: String,
    pub decode: bool,
    pub encode: bool,
    pub max_width: Option<u32>,
    pub max_height: Option<u32>,
    pub max_bit_depth: Option<u32>,
    pub profiles: Vec<String>,
    pub extra: Vec<(String, String)>,
}

/// What a device is, and what it can decode.
#[derive(Debug, Clone)]
pub struct HwDeviceInfo {
    pub name: String,
    pub driver_version: Option<String>,
    pub api_version: Option<String>,
    pub total_memory_bytes: Option<u64>,
    pub extra: Vec<(String, String)>,
    pub codecs: Vec<HwCodecCaps>,
}

/// The contents of [`HwCodecCaps`].
#[verifier::ext_equal]
pub struct CodecRow {
    pub codec: Seq<char>,
    pub decode: bool,
    pub encode: bool,
    pub max_width: Option<u32>,
    pub max_height: Option<u32>,
    pub max_bit_depth: Option<u32>,
    pub profiles: Seq<Seq<char>>,
    pub extra: Seq<(Seq<char>, Seq<char>)>,
}

/// The contents of [`HwDeviceInfo`].
#[verifier::ext_equal]
pub struct DeviceRow {
    pub name: Seq<char>,
    pub driver_version: Option<Seq<char>>,
    pub api_version: Option<Seq<char>>,
    pub total_memory_bytes: Option<u64>,
    pub extra: Seq<(Seq<char>, Seq<char>)>,
    pub codecs: Seq<CodecRow>,
}

/// The characters of some strings.
pub open spec fn texts(strings: Seq<String>) -> Seq<Seq<char>> {
    Seq::new(strings.len(), |i: int| strings[i]@)
}

/// The characters of some pairs of strings.
pub open spec fn text_pairs(pairs: Seq<(String, String)>) -> Seq<(Seq<char>, Seq<char>)> {
    Seq::new(pairs.len(), |i: int| (pairs[i].0@, pairs[i].1@))
}

/// The contents of some capabilities.
pub open spec fn rows(caps: Seq<HwCodecCaps>) -> Seq<CodecRow> {
    Seq::new(caps.len(), |i: int| caps[i]@)
}

/// The characters of a string that may be absent.
pub open spec fn maybe_text(s: Option<String>) -> Option<Seq<char>> {
    match s {
        Some(t) => Some(t@),
        None => None,
    }
}

impl View for HwCodecCaps {
    type V = CodecRow;

    open spec fn view(&self) -> CodecRow {
        CodecRow {
            codec: self.codec@,
            decode: self.decode,
            encode: self.encode,
            max_width: self.max_width,
            max_height: self.max_height,
            max_bit_depth: self.max_bit_depth,
            profiles: texts(self.profiles@),
            extra: text_pairs(self.extra@),
        }
    }
}

impl View for HwDeviceInfo {
    type V = DeviceRow;

    open spec fn view(&self) -> DeviceRow {
        DeviceRow {
            name: self.name@,
            driver_version: maybe_text(self.driver_version),
            api_version: maybe_text(self.api_version),
            total_memory_bytes: self.total_memory_bytes,
            extra: text_pairs(self.extra@),
            codecs: rows(self.codecs@),
        }
    }
}

/// A report says of each capability and each device what the record says, field
/// by field and item by item.
pub proof fn law_rows_show_the_records(caps: HwCodecCaps, device: HwDeviceInfo)
    ensures
        caps@.codec == caps.codec@,
        caps@.decode == caps.decode,
        caps@.encode == caps.encode,
        caps@.max_width == caps.max_width,
        caps@.max_height == caps.max_height,
        caps@.max_bit_depth == caps.max_bit_depth,
        caps@.profiles.len() == caps.profiles@.len(),
        forall|i: int|
            0 <= i < caps.profiles@.len() ==> #[trigger] caps@.profiles[i] == caps.profiles@[i]@,
        caps@.extra.len() == caps.extra@.len(),
        forall|i: int|
            0 <= i < caps.extra@.len() ==> #[trigger] caps@.extra[i] == (
                caps.extra@[i].0@,
                caps.extra@[i].1@,
            ),
        device@.name == device.name@,
        device@.driver_version is Some <==> device.driver_version is Some,
        device.driver_version matches Some(v) ==> device@.driver_version == Some(v@),
        device@.api_version is Some <==> device.api_version is Some,
        device.api_version matches Some(v) ==> device@.api_version == Some(v@),
        device@.total_memory_bytes == device.total_memory_bytes,
        device@.extra.len() == device.extra@.len(),
        forall|i: int|
            0 <= i < device.extra@.len() ==> #[trigger] device@.extra[i] == (
                device.extra@[i].0@,
                device.extra@[i].1@,
            ),
        device@.codecs.len() == device.codecs@.len(),
        forall|i: int|
            0 <= i < device.codecs@.len() ==> #[trigger] device@.codecs[i] == device.codecs@[i]@,
{
}

/// What is reported for family `k` with the given limits and supported
/// profiles. VDPAU does not encode and does not tell bit depths.
pub open spec fn caps_row(k: int, limits: DecoderCaps, labels: Seq<Seq<char>>) -> CodecRow {
    CodecRow {
        codec: family(k),
        decode: limits.supported,
        encode: false,
        max_width: Some(limits.max_width),
        max_height: Some(limits.max_height),
        max_bit_depth: None,
        profiles: labels,
        extra: seq![
            (
                "max_macroblocks"@,
                crate::text::decimal(limits.max_macroblocks as nat),
            ),
            ("max_level"@, crate::text::decimal(limits.max_level as nat)),
        ],
    }
}

/// How far a capability probe has come.
#[verifier::ext_equal]
pub struct ProbeState {
    /// The family that is being asked about.
    pub family: int,
    /// What the driver said of its representative, once it has been asked.
    pub limits: Option<DecoderCaps>,
    /// How many profiles of the family have been asked for since.
    pub asked: int,
    /// The names of those that are supported.
    pub labels: Seq<Seq<char>>,
    /// The families that are done.
    pub rows: Seq<CodecRow>,
}

impl ProbeState {
    /// Nothing has been asked yet.
    pub open spec fn start() -> ProbeState {
        ProbeState {
            family: 0,
            limits: None,
            asked: 0,
            labels: Seq::empty(),
            rows: Seq::empty(),
        }
    }

    /// The profile to ask for next: the representative of a family, then its
    /// profiles.
    pub open spec fn next_query(self) -> Option<VdpDecoderProfile> {
        if self.family >= FAMILIES {
            None
        } else if self.limits is None {
            Some(representative(self.family).raw())
        } else {
            Some(fan_out(self.family)[self.asked].raw())
        }
    }

    /// The next family.
    pub open spec fn next_family(self, rows: Seq<CodecRow>) -> ProbeState {
        ProbeState {
            family: self.family + 1,
            limits: None,
            asked: 0,
            labels: Seq::empty(),
            rows,
        }
    }

    /// The state after the driver's answer; `None` stands for an error. A
    /// family whose representative gives an error is left out; so is a profile
    /// that gives an error or is not supported.
    pub open spec fn step(self, answer: Option<DecoderCaps>) -> ProbeState {
        match self.limits {
            None => match answer {
                None => self.next_family(self.rows),
                Some(_) => ProbeState { limits: answer, ..self },
            },
            Some(limits) => {
                let labels = if answer matches Some(caps) && caps.supported {
                    self.labels.push(fan_out(self.family)[self.asked].name())
                } else {
                    self.labels
                };
                if self.asked + 1 < fan_out(self.family).len() {
                    ProbeState { asked: self.asked + 1, labels, ..self }
                } else {
                    self.next_family(self.rows.push(caps_row(self.family, limits, labels)))
                }
            },
        }
    }

    /// True if the state can come up in a probe.
    pub open spec fn well_formed(self) -> bool {
        &&& 0 <= self.family <= FAMILIES
        &&& self.limits is None ==> self.asked == 0 && self.labels.len() == 0
        &&& self.limits is Some ==> self.family < FAMILIES && 0 <= self.asked < fan_out(
            self.family,
        ).len()
    }
}

/// A capability probe: asks the driver for one profile after the other and
/// collects what it says of each codec family.
#[derive(Debug)]
pub struct CapsProbe {
    family: usize,
    limits: Option<DecoderCaps>,
    asked: usize,
    labels: Vec<String>,
    rows: Vec<HwCodecCaps>,
}

impl View for CapsProbe {
    type V = ProbeState;

    closed spec fn view(&self) -> ProbeState {
        ProbeState {
            family: self.family as int,
            limits: self.limits,
            asked: self.asked as int,
            labels: texts(self.labels@),
            rows: rows(self.rows@),
        }
    }
}

impl CapsProbe {
    #[verifier::type_invariant]
    spec fn well_formed(self) -> bool {
        self@.well_formed()
    }

    /// Begin a probe.
    pub fn new() -> (probe: CapsProbe)
        ensures
            probe@ == ProbeState::start(),
    {
        let labels: Vec<String> = Vec::new();
        let done: Vec<HwCodecCaps> = Vec::new();
        assert(texts(labels@) == Seq::<Seq<char>>::empty());
        assert(rows(done@) == Seq::<CodecRow>::empty());
        CapsProbe { family: 0, limits: None, asked: 0, labels, rows: done }
    }

    /// The profile to ask the driver for next, or `None` when the probe is
    /// complete.
    pub fn next_query(&self) -> (query: Option<VdpDecoderProfile>)
        ensures
            query == self@.next_query(),
    {
        proof {
            use_type_invariant(self);
        }
        if self.family >= FAMILIES {
            return None;
        }
        let query: CodecQuery = codec_query(self.family);
        match self.limits {
            None => Some(query.representative.as_raw()),
            Some(_) => Some(query.profiles[self.asked].as_raw()),
        }
    }

    /// Take in the driver's answer to [`CapsProbe::next_query`].
    pub fn answer(self, reply: Result<DecoderCaps, VdpError>) -> (probe: CapsProbe)
        requires
            self@.next_query() is Some,
        ensures
            probe@ == self@.step(
                match reply {
                    Ok(caps) => Some(caps),
                    Err(_) => None,
                },
            ),
    {
        proof {
            use_type_invariant(&self);
        }
        let ghost before = self@;
        let family: usize = self.family;
        let asked: usize = self.asked;
        let limits: Option<DecoderCaps> = self.limits;
        let mut labels: Vec<String> = self.labels;
        let mut done: Vec<HwCodecCaps> = self.rows;
        match limits {
            None => match reply {
                Ok(caps) => CapsProbe { family, limits: Some(caps), asked, labels, rows: done },
                Err(_) => CapsProbe { family: family + 1, limits: None, asked, labels, rows: done },
            },
            Some(rep_caps) => {
                let query: CodecQuery = codec_query(family);
                if let Ok(caps) = reply {
                    if caps.supported {
                        labels.push(query.profiles[asked].label().to_owned());
                        assert(texts(labels@) == before.labels.push(
                            fan_out(before.family)[before.asked].name(),
                        ));
                    }
                }
                if asked + 1 < query.profiles.len() {
                    CapsProbe { family, limits, asked: asked + 1, labels, rows: done }
                } else {
                    let ghost names = texts(labels@);
                    let row: HwCodecCaps = codec_caps(query.codec, rep_caps, labels);
                    assert(row@ == caps_row(before.family, rep_caps, names));
                    done.push(row);
                    assert(rows(done@) == before.rows.push(row@));
                    let labels: Vec<String> = Vec::new();
                    assert(texts(labels@) == Seq::<Seq<char>>::empty());
                    CapsProbe { family: family + 1, limits: None, asked: 0, labels, rows: done }
                }
            },
        }
    }

    /// The families that are done.
    pub fn into_caps(self) -> (caps: Vec<HwCodecCaps>)
        ensures
            rows(caps@) == self@.rows,
    {
        self.rows
    }
}

/// The row of one codec family.
fn codec_caps(codec: &str, limits: DecoderCaps, profiles: Vec<String>) -> (row: HwCodecCaps)
    ensures
        row@ == (CodecRow {
            codec: codec@,
            decode: limits.supported,
            encode: false,
            max_width: Some(limits.max_width),
            max_height: Some(limits.max_height),
            max_bit_depth: None,
            profiles: texts(profiles@),
            extra: seq![
                (
                    "max_macroblocks"@,
                    crate::text::decimal(limits.max_macroblocks as nat),
                ),
                ("max_level"@, crate::text::decimal(limits.max_level as nat)),
            ],
        }),
{
    let mut extra: Vec<(String, String)> = Vec::new();
    extra.push(("max_macroblocks".to_owned(), decimal_text(limits.max_macroblocks as u64)));
    extra.push(("max_level".to_owned(), decimal_text(limits.max_level as u64)));
    assert(text_pairs(extra@) == seq![
        ("max_macroblocks"@, crate::text::decimal(limits.max_macroblocks as nat)),
        ("max_level"@, crate::text::decimal(limits.max_level as nat)),
    ]);
    HwCodecCaps {
        codec: codec.to_owned(),
        decode: limits.supported,
        encode: false,
        max_width: Some(limits.max_width),
        max_height: Some(limits.max_height),
        max_bit_depth: None,
        profiles,
        extra,
    }
}

/// The names of those among the first `j` profiles of family `k` that the
/// driver supports.
pub open spec fn supported_labels(
    driver: spec_fn(VdpDecoderProfile) -> Option<DecoderCaps>,
    k: int,
    j: int,
) -> Seq<Seq<char>>
    decreases j,
{
    if j <= 0 {
        Seq::empty()
    } else {
        let before = supported_labels(driver, k, j - 1);
        let p = fan_out(k)[j - 1];
        if driver(p.raw()) matches Some(caps) && caps.supported {
            before.push(p.name())
        } else {
            before
        }
    }
}

/// The rows of the first `k` families of a driver: one for each family whose
/// representative the driver answers for.
pub open spec fn driver_rows(
    driver: spec_fn(VdpDecoderProfile) -> Option<DecoderCaps>,
    k: int,
) -> Seq<CodecRow>
    decreases k,
{
    if k <= 0 {
        Seq::empty()
    } else {
        let before = driver_rows(driver, k - 1);
        match driver(representative(k - 1).raw()) {
            None => before,
            Some(limits) => before.push(
                caps_row(
                    k - 1,
                    limits,
                    supported_labels(driver, k - 1, fan_out(k - 1).len() as int),
                ),
            ),
        }
    }
}

/// True if the state agrees with what the driver says.
pub open spec fn agrees_with_driver(
    state: ProbeState,
    driver: spec_fn(VdpDecoderProfile) -> Option<DecoderCaps>,
) -> bool {
    &&& state.well_formed()
    &&& state.rows == driver_rows(driver, state.family)
    &&& state.limits is Some ==> {
        &&& state.limits == driver(representative(state.family).raw())
        &&& state.labels == supported_labels(driver, state.family, state.asked)
    }
}

/// How much of a probe is still to come.
pub open spec fn probe_left(state: ProbeState) -> int {
    10 * (FAMILIES - state.family) - (if state.limits is Some {
        1 + state.asked
    } else {
        0
    })
}

pub proof fn lemma_probe_step(state: ProbeState, answer: Option<DecoderCaps>)
    requires
        state.well_formed(),
        state.next_query() is Some,
    ensures
        state.step(answer).well_formed(),
        0 <= probe_left(state.step(answer)) < probe_left(state),
{
    assert(2 <= fan_out(state.family).len() <= 7);
}

/// What a probe in this state reports in the end if the driver answers every
/// query.
pub open spec fn reported(
    state: ProbeState,
    driver: spec_fn(VdpDecoderProfile) -> Option<DecoderCaps>,
) -> Seq<CodecRow>
    decreases probe_left(state),
    when state.well_formed()
{
    match state.next_query() {
        None => state.rows,
        Some(query) => {
            proof {
                lemma_probe_step(state, driver(query));
            }
            reported(state.step(driver(query)), driver)
        },
    }
}

/// A probe that is answered by a driver reports the rows of the driver.
pub proof fn law_probe_reports_the_driver(
    driver: spec_fn(VdpDecoderProfile) -> Option<DecoderCaps>,
)
    ensures
        reported(ProbeState::start(), driver) == driver_rows(driver, FAMILIES as int),
{
    lemma_probe_agrees(ProbeState::start(), driver);
}

proof fn lemma_probe_agrees(
    state: ProbeState,
    driver: spec_fn(VdpDecoderProfile) -> Option<DecoderCaps>,
)
    requires
        agrees_with_driver(state, driver),
    ensures
        reported(state, driver) == driver_rows(driver, FAMILIES as int),
    decreases probe_left(state),
{
    if state.next_query() is Some {
        let answer = driver(state.next_query()->0);
        let next = state.step(answer);
        lemma_probe_step(state, answer);
        if state.limits is Some {
            assert(supported_labels(driver, state.family, state.asked + 1) == (if answer matches Some(
                caps,
            ) && caps.supported {
                state.labels.push(fan_out(state.family)[state.asked].name())
            } else {
                state.labels
            }));
        } else {
            assert(state.labels == Seq::<Seq<char>>::empty());
        }
        assert(next.rows == driver_rows(driver, next.family));
        lemma_probe_agrees(next, driver);
    }
}

/// The names of those among `offered` profiles, given by number and name, that
/// the driver supports.
pub open spec fn names_supported(
    driver: spec_fn(VdpDecoderProfile) -> Option<DecoderCaps>,
    offered: Seq<(VdpDecoderProfile, Seq<char>)>,
) -> Seq<Seq<char>>
    decreases offered.len(),
{
    if offered.len() == 0 {
        Seq::empty()
    } else {
        let before = names_supported(driver, offered.drop_last());
        match driver(offered.last().0) {
            Some(caps) if caps.supported => before.push(offered.last().1),
            _ => before,
        }
    }
}

/// The row of a codec whose limits are those of profile number `base`; nothing
/// if the driver gives an error for it.
pub open spec fn row_by_numbers(
    driver: spec_fn(VdpDecoderProfile) -> Option<DecoderCaps>,
    codec: Seq<char>,
    base: VdpDecoderProfile,
    offered: Seq<(VdpDecoderProfile, Seq<char>)>,
) -> Seq<CodecRow> {
    match driver(base) {
        None => Seq::empty(),
        Some(limits) => seq![
            CodecRow {
                codec,
                decode: limits.supported,
                encode: false,
                max_width: Some(limits.max_width),
                max_height: Some(limits.max_height),
                max_bit_depth: None,
                profiles: names_supported(driver, offered),
                extra: seq![
                    ("max_macroblocks"@, crate::text::decimal(limits.max_macroblocks as nat)),
                    ("max_level"@, crate::text::decimal(limits.max_level as nat)),
                ],
            },
        ],
    }
}

/// What a probe reports, in the driver's own profile numbers: for each codec the
/// limits of one base profile (High for H.264, Main for HEVC, AV1 and MPEG-2,
/// profile 0 for VP9, Advanced for VC-1, Advanced Simple for MPEG-4), and the
/// names of the profiles that are supported.
pub proof fn law_probe_reports_by_numbers(
    driver: spec_fn(VdpDecoderProfile) -> Option<DecoderCaps>,
)
    ensures
        reported(ProbeState::start(), driver) == row_by_numbers(
            driver,
            "h264"@,
            8,
            seq![
                (6u32, "Baseline"@),
                (7u32, "Main"@),
                (8u32, "High"@),
                (22u32, "ConstrainedBaseline"@),
                (23u32, "Extended"@),
                (24u32, "ProgressiveHigh"@),
                (25u32, "ConstrainedHigh"@),
            ],
        ) + row_by_numbers(
            driver,
            "hevc"@,
            100,
            seq![
                (100u32, "Main"@),
                (101u32, "Main10"@),
                (102u32, "MainStill"@),
                (103u32, "Main12"@),
            ],
        ) + row_by_numbers(
            driver,
            "vp9"@,
            27,
            seq![(27u32, "0"@), (28u32, "1"@), (29u32, "2"@), (30u32, "3"@)],
        ) + row_by_numbers(
            driver,
            "av1"@,
            107,
            seq![(107u32, "Main"@), (108u32, "High"@), (109u32, "Pro"@)],
        ) + row_by_numbers(driver, "mpeg2"@, 2, seq![(1u32, "Simple"@), (2u32, "Main"@)])
            + row_by_numbers(
            driver,
            "vc1"@,
            11,
            seq![(9u32, "Simple"@), (10u32, "Main"@), (11u32, "Advanced"@)],
        ) + row_by_numbers(driver, "mpeg4"@, 13, seq![(12u32, "SP"@), (13u32, "ASP"@)]),
{
    law_probe_reports_the_driver(driver);
    let h264 = seq![
        (6u32, "Baseline"@),
        (7u32, "Main"@),
        (8u32, "High"@),
        (22u32, "ConstrainedBaseline"@),
        (23u32, "Extended"@),
        (24u32, "ProgressiveHigh"@),
        (25u32, "ConstrainedHigh"@),
    ];
    let hevc = seq![
        (100u32, "Main"@),
        (101u32, "Main10"@),
        (102u32, "MainStill"@),
        (103u32, "Main12"@),
    ];
    let vp9 = seq![(27u32, "0"@), (28u32, "1"@), (29u32, "2"@), (30u32, "3"@)];
    let av1 = seq![(107u32, "Main"@), (108u32, "High"@), (109u32, "Pro"@)];
    let mpeg2 = seq![(1u32, "Simple"@), (2u32, "Main"@)];
    let vc1 = seq![(9u32, "Simple"@), (10u32, "Main"@), (11u32, "Advanced"@)];
    let mpeg4 = seq![(12u32, "SP"@), (13u32, "ASP"@)];
    lemma_row_by_numbers(driver, 0, "h264"@, 8, h264);
    lemma_row_by_numbers(driver, 1, "hevc"@, 100, hevc);
    lemma_row_by_numbers(driver, 2, "vp9"@, 27, vp9);
    lemma_row_by_numbers(driver, 3, "av1"@, 107, av1);
    lemma_row_by_numbers(driver, 4, "mpeg2"@, 2, mpeg2);
    lemma_row_by_numbers(driver, 5, "vc1"@, 11, vc1);
    lemma_row_by_numbers(driver, 6, "mpeg4"@, 13, mpeg4);
    let first = row_by_numbers(driver, "h264"@, 8, h264);
    assert(driver_rows(driver, 0) + first == first);
}

proof fn lemma_row_by_numbers(
    driver: spec_fn(VdpDecoderProfile) -> Option<DecoderCaps>,
    k: int,
    codec: Seq<char>,
    base: VdpDecoderProfile,
    offered: Seq<(VdpDecoderProfile, Seq<char>)>,
)
    requires
        0 <= k < FAMILIES,
        codec == family(k),
        base == representative(k).raw(),
        offered.len() == fan_out(k).len(),
        forall|i: int|
            0 <= i < offered.len() ==> (#[trigger] offered[i]).0 == fan_out(k)[i].raw()
                && offered[i].1 == fan_out(k)[i].name(),
    ensures
        driver_rows(driver, k + 1) == driver_rows(driver, k) + row_by_numbers(
            driver,
            codec,
            base,
            offered,
        ),
{
    let n = offered.len() as int;
    lemma_names_supported(driver, k, offered, n);
    assert(offered.take(n) == offered);
    assert(driver_rows(driver, k + 1) == driver_rows(driver, k) + row_by_numbers(
        driver,
        codec,
        base,
        offered,
    ));
}

proof fn lemma_names_supported(
    driver: spec_fn(VdpDecoderProfile) -> Option<DecoderCaps>,
    k: int,
    offered: Seq<(VdpDecoderProfile, Seq<char>)>,
    j: int,
)
    requires
        0 <= j <= offered.len() == fan_out(k).len(),
        forall|i: int|
            0 <= i < offered.len() ==> (#[trigger] offered[i]).0 == fan_out(k)[i].raw()
                && offered[i].1 == fan_out(k)[i].name(),
    ensures
        supported_labels(driver, k, j) == names_supported(driver, offered.take(j)),
    decreases j,
{
    if j > 0 {
        lemma_names_supported(driver, k, offered, j - 1);
        assert(offered.take(j).drop_last() == offered.take(j - 1));
        assert(offered.take(j).last() == offered[j - 1]);
    }
}

/// No row of a driver claims to encode.
pub proof fn law_nothing_encodes(
    driver: spec_fn(VdpDecoderProfile) -> Option<DecoderCaps>,
    k: int,
)
    ensures
        forall|i: int| 0 <= i < driver_rows(driver, k).len() ==> !(#[trigger] driver_rows(
            driver,
            k,
        )[i]).encode,
    decreases k,
{
    if k > 0 {
        law_nothing_encodes(driver, k - 1);
        let all = driver_rows(driver, k);
        let before = driver_rows(driver, k - 1);
        assert forall|i: int| 0 <= i < all.len() implies !(#[trigger] all[i]).encode by {
            if i < before.len() {
                assert(all[i] == before[i]);
            }
        }
    }
}

// The device.

/// What the driver said when it was asked about the device.
#[derive(Debug)]
pub struct DeviceReport {
    pub information_string: Result<String, VdpError>,
    pub api_version: Result<u32, VdpError>,
    pub codecs: Vec<HwCodecCaps>,
}

impl DeviceReport {
    /// The banner; empty if the driver gave none.
    pub open spec fn banner(&self) -> Seq<char> {
        match self.information_string {
            Ok(text) => text@,
            Err(_) => Seq::empty(),
        }
    }
}

/// What is reported of a device.
pub open spec fn device_row(report: DeviceReport) -> DeviceRow {
    let banner = report.banner();
    DeviceRow {
        name: if device_name(banner).len() == 0 {
            "VDPAU device"@
        } else {
            device_name(banner)
        },
        driver_version: first_version(banner, 0),
        api_version: match report.api_version {
            Ok(v) => Some("VDPAU API "@ + crate::text::decimal(v as nat)),
            Err(_) => None,
        },
        total_memory_bytes: None,
        extra: if banner.len() == 0 {
            Seq::empty()
        } else {
            seq![("information_string"@, banner)]
        },
        codecs: rows(report.codecs@),
    }
}

/// Enumerate the devices: one if a device was reached, none otherwise.
pub fn engine_info(report: Option<DeviceReport>) -> (devices: Vec<HwDeviceInfo>)
    ensures
        match report {
            None => devices@.len() == 0,
            Some(r) => devices@.len() == 1 && devices@[0]@ == device_row(r),
        },
{
    let mut devices: Vec<HwDeviceInfo> = Vec::new();
    if let Some(r) = report {
        let ghost row = device_row(r);
        let banner: String = match r.information_string {
            Ok(text) => text,
            Err(_) => {
                let empty: String = String::new();
                assert(empty@ == Seq::<char>::empty());
                empty
            },
        };
        let parsed: String = parse_device_name(banner.as_str());
        let name: String = if parsed.as_str().unicode_len() == 0 {
            "VDPAU device".to_owned()
        } else {
            parsed
        };
        let driver_version: Option<String> = parse_driver_version(banner.as_str());
        let api_version: Option<String> = match r.api_version {
            Ok(v) => Some("VDPAU API ".to_owned().concat(decimal_text(v as u64).as_str())),
            Err(_) => None,
        };
        let mut extra: Vec<(String, String)> = Vec::new();
        if banner.as_str().unicode_len() > 0 {
            extra.push(("information_string".to_owned(), banner));
        }
        assert(text_pairs(extra@) == row.extra);
        let device: HwDeviceInfo = HwDeviceInfo {
            name,
            driver_version,
            api_version,
            total_memory_bytes: None,
            extra,
            codecs: r.codecs,
        };
        assert(device@ == row);
        devices.push(device);
    }
    devices
}

/// A device that is reported has a name.
pub proof fn law_device_has_a_name(report: DeviceReport)
    ensures
        device_row(report).name.len() > 0,
{
    reveal_strlit("VDPAU device");
}

/// The error that stands against device `index` where there are `count`
/// devices.
pub open spec fn index_error(index: u32, count: nat) -> Option<Failure> {
    if count == 0 {
        Some(crate::device::failure("no VDPAU device available"@))
    } else if index >= count {
        Some(
            crate::device::failure(
                "vdpau: device_index "@ + crate::text::decimal(index as nat)
                    + " out of range (0.."@ + crate::text::decimal(count) + ")"@,
            ),
        )
    } else {
        None
    }
}

/// The error that stands against a request for a device, which is number 0
/// unless another one is asked for.
pub open spec fn request_error(device_index: Option<u32>, count: nat) -> Option<Failure> {
    match device_index {
        Some(index) => index_error(index, count),
        None => index_error(0, count),
    }
}

/// Check that the device that is asked for is one of `devices`; without a
/// request that is number 0.
pub fn validate_request(device_index: Option<u32>, devices: &Vec<HwDeviceInfo>) -> (res: Result<
    (),
    VdpError,
>)
    ensures
        match request_error(device_index, devices@.len()) {
            Some(f) => res matches Err(e) && e@ == f,
            None => res is Ok,
        },
{
    match device_index {
        Some(index) => validate_device_index(index, devices),
        None => validate_device_index(0, devices),
    }
}

/// Check that `index` is the index of one of `devices`.
pub fn validate_device_index(index: u32, devices: &Vec<HwDeviceInfo>) -> (res: Result<
    (),
    VdpError,
>)
    ensures
        match index_error(index, devices@.len()) {
            Some(f) => res matches Err(e) && e@ == f,
            None => res is Ok,
        },
{
    if devices.len() == 0 {
        return Err(VdpError::other("no VDPAU device available".to_owned()));
    }
    if (index as u64) >= devices.len() as u64 {
        return Err(
            VdpError::other(
                "vdpau: device_index ".to_owned().concat(
                    decimal_text(index as u64).as_str(),
                ).concat(" out of range (0..").concat(
                    decimal_text(devices.len() as u64).as_str(),
                ).concat(")"),
            ),
        );
    }
    Ok(())
}

/// What is reported of a device rests on the banner and the version number
/// alone: the name is that in the banner's first line, or a stand-in if that
/// line is blank, and the banner is passed on as it is, unless it is empty.
pub proof fn law_device_is_reported(
    report: DeviceReport,
    lead: Seq<char>,
    name: Seq<char>,
    trail: Seq<char>,
    rest: Seq<char>,
)
    requires
        forall|i: int| 0 <= i < lead.len() ==> white(#[trigger] lead[i]) && lead[i] != '\n',
        forall|i: int| 0 <= i < trail.len() ==> white(#[trigger] trail[i]) && trail[i] != '\n',
        forall|i: int| 0 <= i < name.len() ==> #[trigger] name[i] != '\n',
        name.len() > 0 ==> !white(name[0]) && !white(name.last()),
    ensures
        ({
            let row = device_row(report);
            &&& (report.information_string matches Ok(t) && t@ == lead + name + trail + seq!['\n']
                + rest) ==> {
                &&& name.len() > 0 ==> row.name == name
                &&& name.len() == 0 ==> row.name == "VDPAU device"@
                &&& row.extra == seq![("information_string"@, report.information_string->Ok_0@)]
            }
            &&& report.information_string is Err ==> {
                &&& row.name == "VDPAU device"@
                &&& row.driver_version is None
                &&& row.extra.len() == 0
            }
            &&& report.api_version matches Ok(v) ==> {
                &&& row.api_version matches Some(text) && text.len() > 10
                &&& row.api_version->0.take(10) == "VDPAU API "@
                &&& crate::text::number(row.api_version->0.skip(10), 10) == v
            }
            &&& report.api_version is Err ==> row.api_version is None
            &&& row.total_memory_bytes is None
            &&& row.codecs == rows(report.codecs@)
        }),
{
    law_name_is_found(lead, name, trail, Some(rest));
    if report.information_string is Err {
        law_name_is_found(Seq::empty(), Seq::empty(), Seq::empty(), None);
        let none = Seq::<char>::empty();
        assert(none + none + none == none);
    }
    if let Ok(v) = report.api_version {
        let text = device_row(report).api_version->0;
        reveal_strlit("VDPAU API ");
        crate::text::law_decimal_reads_back(v as nat);
        assert(text.take(10) == "VDPAU API "@);
        assert(text.skip(10) == crate::text::decimal(v as nat));
    }
}

/// A request is granted exactly if there is a device of that number; without a
/// number, exactly if there is a device at all. A refusal is no driver error.
pub proof fn law_request_is_granted_for_a_device(index: u32, count: nat)
    ensures
        request_error(Some(index), count) is None <==> index < count,
        request_error(None, count) is None <==> 0 < count,
        request_error(Some(index), count) matches Some(f) ==> f.status == 0,
        request_error(None, count) matches Some(f) ==> f.status == 0,
{
}

/// Of the devices that a probe enumerates, only number 0 exists, and it exists
/// exactly if a device was reached.
pub proof fn law_only_index_zero_is_valid(index: u32, devices: nat)
    requires
        devices <= 1,
    ensures
        index_error(index, devices) is None <==> index == 0 && devices == 1,
{
}

} // verus!
