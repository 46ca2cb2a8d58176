//! The header interpreter: decodes one archive entry's header fields, laid
//! out in one of three incompatible on-disk levels, into a uniform record
//! describing a path, a comment, protection bits and a timestamp.
use vstd::prelude::*;

use crate::transcode::raw_transcoded;
use crate::transcode::transcode_raw;
use crate::transcode::push_char;
use crate::UnlhaError;

verus! {

/// Extension-block tag byte that carries the leaf filename (levels 2 and 3).
pub const EXT_HEADER_FILENAME: u8 = 0x01;

/// Extension-block tag byte that carries the directory path.
pub const EXT_HEADER_PATH: u8 = 0x02;

/// Undocumented extension-block tag byte that carries the comment in level-2
/// headers written by the Amiga archiver.
pub const EXT_HEADER_LV2_COMMENT: u8 = 0x71;

/// Separator byte between directory segments inside a path extension block.
pub const PATH_SEPARATOR: u8 = 0xff;

/// A calendar timestamp held as plain field values, no time zone attached.
#[derive(Clone, Copy, PartialEq, Eq, Structural, Debug)]
pub struct DateTime {
    pub year: u16,
    pub month: u8,
    pub day: u8,
    pub hour: u8,
    pub minute: u8,
    pub second: u8,
}

impl DateTime {
    /// The field ranges of a rendered calendar date.
    pub open spec fn wf(&self) -> bool {
        self.year <= 9999 && 1 <= self.month <= 12 && 1 <= self.day <= 31 && self.hour <= 23
            && self.minute <= 59 && self.second <= 59
    }
}

/// An entry's last-modified time: absent, naive (no zone), or zoned (UTC).
#[derive(Clone, Copy, PartialEq, Eq, Structural, Debug)]
pub enum Timestamp {
    Absent,
    Naive(DateTime),
    Utc(DateTime),
}

impl Timestamp {
    /// Whatever date the timestamp holds is a rendered calendar date.
    pub open spec fn wf(&self) -> bool {
        match *self {
            Timestamp::Absent => true,
            Timestamp::Naive(d) => d.wf(),
            Timestamp::Utc(d) => d.wf(),
        }
    }
}

/// The header fields of one archive entry, as the extraction driver hands
/// them over: the raw filename field, the raw extension blocks, and the
/// already-decoded attribute and timestamp values.
pub struct RawHeader {
    /// Header level: the three known on-disk layouts are 0, 1 and 2.
    pub level: u8,
    /// The raw filename field; its interpretation depends on the level.
    pub filename: Vec<u8>,
    /// The extension blocks, each led by its tag byte.
    pub extra_headers: Vec<Vec<u8>>,
    /// The native attribute field; the low 8 bits are the permission flags.
    pub protection_bits: u16,
    /// The entry's decoded last-modified time.
    pub timestamp: Timestamp,
}

/// The uniform record produced for one archive entry.
pub struct FileInfo {
    /// Path segments in archive order: directory segments, then the leaf
    /// name when the entry is a file.
    pub path_components: Vec<Vec<u8>>,
    /// Free-text annotation attached by the archiving tool, if any.
    pub comment: Option<Vec<u8>>,
    /// The native attribute field; the low 8 bits are the permission flags.
    pub protection_bits: u16,
    /// A directory entry produces no file content.
    pub is_directory: bool,
    /// The entry's last-modified time.
    pub timestamp: Timestamp,
}

/// Index of the first occurrence of `b` in `s`, or `s.len()` when absent.
pub open spec fn find_byte(s: Seq<u8>, b: u8) -> int
    decreases s.len(),
{
    if s.len() == 0 {
        0
    } else if s[0] == b {
        0
    } else {
        1 + find_byte(s.skip(1), b)
    }
}

pub proof fn lemma_find_byte(s: Seq<u8>, b: u8)
    ensures
        0 <= find_byte(s, b) <= s.len(),
        find_byte(s, b) < s.len() ==> s[find_byte(s, b)] == b,
        forall|j: int| 0 <= j < find_byte(s, b) ==> s[j] != b,
    decreases s.len(),
{
    if s.len() == 0 {
    } else if s[0] == b {
    } else {
        lemma_find_byte(s.skip(1), b);
        assert forall|j: int| 0 <= j < find_byte(s, b) implies s[j] != b by {
            if j > 0 {
                assert(s.skip(1)[j - 1] == s[j]);
            }
        }
    }
}

/// The first occurrence is the position before which `b` does not occur.
pub proof fn lemma_find_byte_at(s: Seq<u8>, b: u8, m: int)
    requires
        0 <= m <= s.len(),
        forall|j: int| 0 <= j < m ==> s[j] != b,
        m < s.len() ==> s[m] == b,
    ensures
        find_byte(s, b) == m,
    decreases s.len(),
{
    if s.len() == 0 {
    } else if s[0] == b {
        assert(m == 0);
    } else {
        assert(m >= 1);
        lemma_find_byte_at(s.skip(1), b, m - 1);
    }
}

#[via_fn]
proof fn split_bytes_decreases(s: Seq<u8>, sep: u8) {
    lemma_find_byte(s, sep);
}

/// The segments of `s` separated by `sep`, in order, separators dropped.
/// A byte string without the separator is one segment, possibly empty.
pub open spec fn split_bytes(s: Seq<u8>, sep: u8) -> Seq<Seq<u8>>
    decreases s.len(),
    via split_bytes_decreases
{
    let f = find_byte(s, sep);
    if f == s.len() {
        seq![s]
    } else {
        seq![s.take(f)] + split_bytes(s.skip(f + 1), sep)
    }
}

/// The run of bytes before the first null, which is the raw name field's
/// meaningful part.
pub open spec fn first_segment(s: Seq<u8>) -> Seq<u8> {
    s.take(find_byte(s, 0))
}

/// The comment that follows the terminating null of the name field: the run
/// between the first null and the next one, or absent when the field holds
/// no null at all.
pub open spec fn comment_segment(s: Seq<u8>) -> Option<Seq<u8>> {
    let f = find_byte(s, 0);
    if f == s.len() {
        None
    } else {
        Some(first_segment(s.skip(f + 1)))
    }
}

/// The first extension block led by the given tag byte, if any.
pub open spec fn find_ext(extras: Seq<Seq<u8>>, tag: u8) -> Option<Seq<u8>>
    decreases extras.len(),
{
    if extras.len() == 0 {
        None
    } else if extras[0].len() > 0 && extras[0][0] == tag {
        Some(extras[0])
    } else {
        find_ext(extras.skip(1), tag)
    }
}

/// The first matching extension block is the one at the position before
/// which no block matches.
pub proof fn lemma_find_ext_at(extras: Seq<Seq<u8>>, tag: u8, m: int)
    requires
        0 <= m <= extras.len(),
        forall|j: int| 0 <= j < m ==> !(extras[j].len() > 0 && extras[j][0] == tag),
        m < extras.len() ==> extras[m].len() > 0 && extras[m][0] == tag,
    ensures
        find_ext(extras, tag) == if m == extras.len() {
            None
        } else {
            Some(extras[m])
        },
    decreases extras.len(),
{
    if extras.len() == 0 {
    } else if extras[0].len() > 0 && extras[0][0] == tag {
        assert(m == 0);
    } else {
        assert(m >= 1);
        lemma_find_ext_at(extras.skip(1), tag, m - 1);
    }
}

/// Directory segments carried by the path extension block: the block's
/// content with the tag byte and the trailing separator dropped, split on
/// the segment separator. No block means no directory segments.
pub open spec fn ext_path_components(extras: Seq<Seq<u8>>) -> Seq<Seq<u8>> {
    match find_ext(extras, EXT_HEADER_PATH) {
        None => Seq::empty(),
        Some(d) => split_bytes(d.subrange(1, d.len() - 1), PATH_SEPARATOR),
    }
}

/// Path components of a level-0 entry: the name-field run before the null,
/// split on the backslash separator.
pub open spec fn level0_components(name_field: Seq<u8>) -> Seq<Seq<u8>> {
    split_bytes(first_segment(name_field), 0x5c)
}

/// Path components of a level-1 entry: the directory segments from the path
/// extension block, then the leaf name from the name field unless the entry
/// is a directory (signaled by an empty leaf name).
pub open spec fn level1_components(name_field: Seq<u8>, extras: Seq<Seq<u8>>) -> Seq<Seq<u8>> {
    ext_path_components(extras) + if first_segment(name_field).len() == 0 {
        Seq::empty()
    } else {
        seq![first_segment(name_field)]
    }
}

/// Path components of a level-2 entry: the directory segments from the path
/// extension block, then the leaf name from the filename extension block
/// when one is present.
pub open spec fn level2_components(extras: Seq<Seq<u8>>) -> Seq<Seq<u8>> {
    ext_path_components(extras) + match find_ext(extras, EXT_HEADER_FILENAME) {
        None => Seq::<Seq<u8>>::empty(),
        Some(n) => seq![n.skip(1)],
    }
}

/// The comment of a level-2 entry: the content of the comment extension
/// block, tag byte dropped, when one is present.
pub open spec fn level2_comment(extras: Seq<Seq<u8>>) -> Option<Seq<u8>> {
    match find_ext(extras, EXT_HEADER_LV2_COMMENT) {
        None => None,
        Some(c) => Some(c.skip(1)),
    }
}

/// The extension blocks a header may carry: each block is non-empty (its
/// first byte is its tag), and a path block holds at least its tag and the
/// trailing separator.
pub open spec fn extras_wf(extras: Seq<Seq<u8>>) -> bool {
    forall|i: int|
        0 <= i < extras.len() ==> (#[trigger] extras[i]).len() > 0 && (extras[i][0]
            == EXT_HEADER_PATH ==> extras[i].len() >= 2)
}

/// Scans for the first occurrence of `b` at or after `start`.
fn find_from(v: &[u8], start: usize, b: u8) -> (r: usize)
    requires
        start <= v@.len(),
    ensures
        start <= r <= v@.len(),
        forall|j: int| start <= j < r ==> v@[j] != b,
        r < v@.len() ==> v@[r as int] == b,
{
    let mut k = start;
    while k < v.len()
        invariant
            start <= k <= v@.len(),
            forall|j: int| start <= j < k ==> v@[j] != b,
        decreases v@.len() - k,
    {
        if v[k] == b {
            return k;
        }
        k = k + 1;
    }
    k
}

/// Copies the bytes of `v` between `start` and `end`.
fn copy_range(v: &[u8], start: usize, end: usize) -> (r: Vec<u8>)
    requires
        start <= end <= v@.len(),
    ensures
        r@ == v@.subrange(start as int, end as int),
{
    vstd::slice::slice_to_vec(vstd::slice::slice_subrange(v, start, end))
}

/// Splits the bytes of `v` between `start` and `end` on the separator.
fn split_range(v: &[u8], start: usize, end: usize, sep: u8) -> (r: Vec<Vec<u8>>)
    requires
        start <= end <= v@.len(),
    ensures
        r.deep_view() == split_bytes(v@.subrange(start as int, end as int), sep),
{
    let ghost s_all = v@.subrange(start as int, end as int);
    let mut r: Vec<Vec<u8>> = Vec::new();
    let mut cur = start;
    let mut done = false;
    while !done
        invariant
            start <= cur <= end <= v@.len(),
            !done ==> split_bytes(s_all, sep) == r.deep_view() + split_bytes(
                v@.subrange(cur as int, end as int),
                sep,
            ),
            done ==> r.deep_view() == split_bytes(s_all, sep),
        decreases end - cur + (if done {
            0int
        } else {
            1int
        }),
    {
        let ghost prev = r.deep_view();
        let ghost rem = v@.subrange(cur as int, end as int);
        let mut k = cur;
        while k < end && v[k] != sep
            invariant
                cur <= k <= end <= v@.len(),
                forall|j: int| cur <= j < k ==> v@[j] != sep,
            decreases end - k,
        {
            k = k + 1;
        }
        let seg = copy_range(v, cur, k);
        r.push(seg);
        proof {
            assert forall|j: int| 0 <= j < k - cur implies rem[j] != sep by {
                assert(rem[j] == v@[cur + j]);
            }
            if k < end {
                assert(rem[k - cur] == v@[k as int]);
            }
            lemma_find_byte_at(rem, sep, k - cur);
            assert(r.deep_view() =~~= prev.push(seg@));
            if k == end {
                assert(rem.take(k - cur) =~= rem);
                assert(split_bytes(rem, sep) == seq![rem]);
                assert(seg@ =~= rem);
                assert(r.deep_view() =~= split_bytes(s_all, sep));
            } else {
                assert(split_bytes(rem, sep) == seq![rem.take(k - cur)] + split_bytes(
                    rem.skip(k - cur + 1),
                    sep,
                ));
                assert(seg@ =~= rem.take(k - cur));
                assert(rem.skip(k - cur + 1) =~= v@.subrange(k + 1 as int, end as int));
                assert(split_bytes(s_all, sep) =~= r.deep_view() + split_bytes(
                    v@.subrange(k + 1 as int, end as int),
                    sep,
                ));
            }
        }
        if k == end {
            done = true;
        } else {
            cur = k + 1;
        }
    }
    r
}

/// Finds the index of the first extension block led by the given tag.
fn find_ext_block(extras: &Vec<Vec<u8>>, tag: u8) -> (r: Option<usize>)
    ensures
        match r {
            Some(i) => i < extras@.len() && extras.deep_view()[i as int].len() > 0
                && extras.deep_view()[i as int][0] == tag && find_ext(extras.deep_view(), tag)
                == Some(extras.deep_view()[i as int]),
            None => find_ext(extras.deep_view(), tag) is None,
        },
{
    let ghost dv = extras.deep_view();
    let mut i: usize = 0;
    while i < extras.len()
        invariant
            i <= extras@.len(),
            dv == extras.deep_view(),
            forall|j: int| 0 <= j < i ==> !((#[trigger] dv[j]).len() > 0 && dv[j][0] == tag),
        decreases extras@.len() - i,
    {
        let e = &extras[i];
        if e.len() > 0 && e[0] == tag {
            proof {
                lemma_find_ext_at(dv, tag, i as int);
            }
            return Some(i);
        }
        i = i + 1;
    }
    proof {
        lemma_find_ext_at(dv, tag, i as int);
    }
    None
}

/// Reads the comment that follows the name field's terminating null, when
/// the null is there.
fn parse_name_comment(name: &[u8], f0: usize) -> (r: Option<Vec<u8>>)
    requires
        f0 <= name@.len(),
        forall|j: int| 0 <= j < f0 ==> name@[j] != 0,
        f0 < name@.len() ==> name@[f0 as int] == 0,
    ensures
        r.deep_view() == comment_segment(name@),
{
    proof {
        lemma_find_byte_at(name@, 0, f0 as int);
    }
    if f0 == name.len() {
        None
    } else {
        let f1 = find_from(name, f0 + 1, 0);
        let ghost rest = name@.skip(f0 + 1);
        proof {
            assert forall|j: int| 0 <= j < f1 - (f0 + 1) implies rest[j] != 0 by {
                assert(rest[j] == name@[f0 + 1 + j]);
            }
            if f1 < name@.len() {
                assert(rest[f1 - (f0 + 1)] == name@[f1 as int]);
            }
            lemma_find_byte_at(rest, 0, f1 - (f0 + 1));
            assert(name@.subrange(f0 + 1 as int, f1 as int) =~= first_segment(rest));
        }
        Some(copy_range(name, f0 + 1, f1))
    }
}

/// Decodes a level-0 header: the legacy DOS-compatible layout, where the
/// name field holds the whole backslash-separated path and the comment
/// follows the terminating null. A directory is signaled by the
/// null-terminated filename run ending in a trailing backslash; the
/// comment after the null plays no part in that.
fn parse_level0(header: &RawHeader) -> (r: FileInfo)
    requires
        header.filename@.len() > 0,
    ensures
        r.path_components.deep_view() == level0_components(header.filename@),
        r.comment.deep_view() == comment_segment(header.filename@),
        r.protection_bits == header.protection_bits,
        r.is_directory == (first_segment(header.filename@).len() > 0 && first_segment(
            header.filename@,
        ).last() == 0x5c),
        r.timestamp == header.timestamp,
{
    let name = header.filename.as_slice();
    let f0 = find_from(name, 0, 0);
    proof {
        lemma_find_byte_at(name@, 0, f0 as int);
        assert(name@.subrange(0, f0 as int) =~= first_segment(name@));
    }
    let path_components = split_range(name, 0, f0, 0x5c);
    let comment = parse_name_comment(name, f0);
    let is_directory = f0 > 0 && name[f0 - 1] == 0x5c;
    proof {
        if f0 > 0 {
            assert(first_segment(name@).last() == name@[f0 - 1]);
        }
    }
    FileInfo {
        path_components,
        comment,
        protection_bits: header.protection_bits,
        is_directory,
        timestamp: header.timestamp,
    }
}

/// Reads the directory segments out of the path extension block, when the
/// header carries one.
fn parse_ext_path(extras: &Vec<Vec<u8>>) -> (r: Vec<Vec<u8>>)
    requires
        extras_wf(extras.deep_view()),
    ensures
        r.deep_view() == ext_path_components(extras.deep_view()),
{
    let ghost dv = extras.deep_view();
    match find_ext_block(extras, EXT_HEADER_PATH) {
        Some(i) => {
            let d = &extras[i];
            proof {
                assert(dv[i as int] == d@);
            }
            let r = split_range(d.as_slice(), 1, d.len() - 1, PATH_SEPARATOR);
            proof {
                assert(d@.subrange(1, d@.len() - 1) == find_ext(dv, EXT_HEADER_PATH).unwrap()
                    .subrange(1, find_ext(dv, EXT_HEADER_PATH).unwrap().len() - 1));
            }
            r
        },
        None => Vec::new(),
    }
}

/// Decodes a level-1 header: the default layout, where the name field holds
/// only the leaf name (empty for a directory), the comment follows its
/// null, and directory segments live in the path extension block.
fn parse_level1(header: &RawHeader) -> (r: FileInfo)
    requires
        extras_wf(header.extra_headers.deep_view()),
    ensures
        r.path_components.deep_view() == level1_components(
            header.filename@,
            header.extra_headers.deep_view(),
        ),
        r.comment.deep_view() == comment_segment(header.filename@),
        r.protection_bits == header.protection_bits,
        r.is_directory == (first_segment(header.filename@).len() == 0),
        r.timestamp == header.timestamp,
{
    let name = header.filename.as_slice();
    let f0 = find_from(name, 0, 0);
    proof {
        lemma_find_byte_at(name@, 0, f0 as int);
        assert(name@.subrange(0, f0 as int) =~= first_segment(name@));
    }
    let is_directory = f0 == 0;
    let comment = parse_name_comment(name, f0);
    let mut path_components = parse_ext_path(&header.extra_headers);
    let ghost dir_dv = path_components.deep_view();
    if !is_directory {
        path_components.push(copy_range(name, 0, f0));
        proof {
            assert(path_components.deep_view() =~~= dir_dv.push(first_segment(name@)));
        }
    }
    proof {
        assert(path_components.deep_view() =~= level1_components(
            name@,
            header.extra_headers.deep_view(),
        ));
    }
    FileInfo {
        path_components,
        comment,
        protection_bits: header.protection_bits,
        is_directory,
        timestamp: header.timestamp,
    }
}

/// Decodes a level-2 header: the extension-header-only layout, where the
/// leaf name, the directory path and the comment each live in their own
/// extension block.
fn parse_level2(header: &RawHeader) -> (r: FileInfo)
    requires
        extras_wf(header.extra_headers.deep_view()),
    ensures
        r.path_components.deep_view() == level2_components(header.extra_headers.deep_view()),
        r.comment.deep_view() == level2_comment(header.extra_headers.deep_view()),
        r.protection_bits == header.protection_bits,
        r.is_directory == (find_ext(header.extra_headers.deep_view(), EXT_HEADER_FILENAME)
            is None),
        r.timestamp == header.timestamp,
{
    let ghost dv = header.extra_headers.deep_view();
    let extras = &header.extra_headers;
    let leaf = match find_ext_block(extras, EXT_HEADER_FILENAME) {
        Some(i) => {
            let n = &extras[i];
            proof {
                assert(dv[i as int] == n@);
                assert(n@.subrange(1, n@.len() as int) =~= n@.skip(1));
            }
            Some(copy_range(n.as_slice(), 1, n.len()))
        },
        None => None,
    };
    let comment = match find_ext_block(extras, EXT_HEADER_LV2_COMMENT) {
        Some(i) => {
            let c = &extras[i];
            proof {
                assert(dv[i as int] == c@);
                assert(c@.subrange(1, c@.len() as int) =~= c@.skip(1));
            }
            Some(copy_range(c.as_slice(), 1, c.len()))
        },
        None => None,
    };
    let is_directory = leaf.is_none();
    let mut path_components = parse_ext_path(extras);
    let ghost dir_dv = path_components.deep_view();
    match leaf {
        Some(l) => {
            let ghost lv = l@;
            path_components.push(l);
            proof {
                assert(path_components.deep_view() =~~= dir_dv.push(lv));
            }
        },
        None => {},
    }
    proof {
        assert(path_components.deep_view() =~= level2_components(dv));
    }
    FileInfo {
        path_components,
        comment,
        protection_bits: header.protection_bits,
        is_directory,
        timestamp: header.timestamp,
    }
}

/// Decodes one archive entry's header into the uniform record, failing on
/// an unknown header level and on nothing else.
pub fn parse_file_info(header: &RawHeader) -> (r: Result<FileInfo, UnlhaError>)
    requires
        header.level == 0 ==> header.filename@.len() > 0,
        header.level == 1 || header.level == 2 ==> extras_wf(header.extra_headers.deep_view()),
    ensures
        r is Ok <==> (header.level == 0 || header.level == 1 || header.level == 2),
        r is Err ==> r == Err::<FileInfo, UnlhaError>(UnlhaError::UnsupportedFormat),
        r matches Ok(i) ==> {
            &&& i.protection_bits == header.protection_bits
            &&& i.timestamp == header.timestamp
            &&& (header.level == 0 ==> i.path_components.deep_view() == level0_components(
                header.filename@,
            ) && i.comment.deep_view() == comment_segment(header.filename@) && i.is_directory == (
            first_segment(header.filename@).len() > 0 && first_segment(header.filename@).last()
                == 0x5c))
            &&& (header.level == 1 ==> i.path_components.deep_view() == level1_components(
                header.filename@,
                header.extra_headers.deep_view(),
            ) && i.comment.deep_view() == comment_segment(header.filename@) && i.is_directory == (
            first_segment(header.filename@).len() == 0))
            &&& (header.level == 2 ==> i.path_components.deep_view() == level2_components(
                header.extra_headers.deep_view(),
            ) && i.comment.deep_view() == level2_comment(header.extra_headers.deep_view())
                && i.is_directory == (find_ext(
                header.extra_headers.deep_view(),
                EXT_HEADER_FILENAME,
            ) is None))
        },
{
    if header.level == 0 {
        Ok(parse_level0(header))
    } else if header.level == 1 {
        Ok(parse_level1(header))
    } else if header.level == 2 {
        Ok(parse_level2(header))
    } else {
        Err(UnlhaError::UnsupportedFormat)
    }
}

/// The character for one decimal digit value.
pub open spec fn digit_char(d: int) -> char {
    ((48 + d) as u8) as char
}

/// A number rendered as two decimal digits, zero-padded.
pub open spec fn two_digit_chars(n: u8) -> Seq<char> {
    seq![digit_char(n as int / 10), digit_char(n as int % 10)]
}

/// A year rendered as four decimal digits, zero-padded.
pub open spec fn four_digit_chars(n: u16) -> Seq<char> {
    seq![
        digit_char(n as int / 1000),
        digit_char((n as int / 100) % 10),
        digit_char((n as int / 10) % 10),
        digit_char(n as int % 10),
    ]
}

/// A calendar date rendered in the sidecar's fixed format, with the
/// centisecond field always zero.
pub open spec fn datetime_chars(d: DateTime) -> Seq<char> {
    four_digit_chars(d.year) + seq!['-'] + two_digit_chars(d.month) + seq!['-'] + two_digit_chars(
        d.day,
    ) + seq![' '] + two_digit_chars(d.hour) + seq![':'] + two_digit_chars(d.minute) + seq![':']
        + two_digit_chars(d.second) + seq!['.', '0', '0']
}

/// The date a timestamp renders as: an absent timestamp renders as the
/// platform's epoch.
pub open spec fn timestamp_date(ts: Timestamp) -> DateTime {
    match ts {
        Timestamp::Absent => DateTime { year: 1980, month: 1, day: 1, hour: 0, minute: 0, second: 0 },
        Timestamp::Naive(d) => d,
        Timestamp::Utc(d) => d,
    }
}

/// The rendered form of a timestamp.
pub open spec fn timestamp_chars(ts: Timestamp) -> Seq<char> {
    datetime_chars(timestamp_date(ts))
}

/// The eight permission flags, rendered high bit to low bit: `hspa` direct,
/// then `rwed` with the stored sense inverted ("on" means revoked).
pub open spec fn flags_chars(pb: u16) -> Seq<char> {
    let bits = pb ^ 0x0f;
    seq![
        if bits & 0x80 != 0 { 'h' } else { '-' },
        if bits & 0x40 != 0 { 's' } else { '-' },
        if bits & 0x20 != 0 { 'p' } else { '-' },
        if bits & 0x10 != 0 { 'a' } else { '-' },
        if bits & 0x08 != 0 { 'r' } else { '-' },
        if bits & 0x04 != 0 { 'w' } else { '-' },
        if bits & 0x02 != 0 { 'e' } else { '-' },
        if bits & 0x01 != 0 { 'd' } else { '-' },
    ]
}

/// Pushes a number of up to two decimal digits, zero-padded.
fn push_two_digits(s: &mut String, n: u8)
    requires
        n <= 99,
    ensures
        final(s)@ == old(s)@ + two_digit_chars(n),
{
    push_char(s, (48 + n / 10) as char);
    push_char(s, (48 + n % 10) as char);
    proof {
        assert(final(s)@ =~= old(s)@ + two_digit_chars(n));
    }
}

impl FileInfo {
    /// Renders the permission flags as the fixed eight-character string,
    /// one letter or dash per flag, high bit to low bit.
    pub fn get_flags(&self) -> (r: String)
        ensures
            r@ == flags_chars(self.protection_bits),
    {
        let bits = self.protection_bits ^ 0x0f;
        let mut r = String::new();
        push_char(&mut r, if bits & 0x80 != 0 { 'h' } else { '-' });
        push_char(&mut r, if bits & 0x40 != 0 { 's' } else { '-' });
        push_char(&mut r, if bits & 0x20 != 0 { 'p' } else { '-' });
        push_char(&mut r, if bits & 0x10 != 0 { 'a' } else { '-' });
        push_char(&mut r, if bits & 0x08 != 0 { 'r' } else { '-' });
        push_char(&mut r, if bits & 0x04 != 0 { 'w' } else { '-' });
        push_char(&mut r, if bits & 0x02 != 0 { 'e' } else { '-' });
        push_char(&mut r, if bits & 0x01 != 0 { 'd' } else { '-' });
        proof {
            assert(r@ =~= flags_chars(self.protection_bits));
        }
        r
    }

    /// Renders the comment with the plain one-to-one byte-to-codepoint
    /// mapping, or an empty string when there is none.
    pub fn get_comment(&self) -> (r: String)
        ensures
            match self.comment {
                Some(c) => r@ == raw_transcoded(c@),
                None => r@ == Seq::<char>::empty(),
            },
    {
        match &self.comment {
            Some(c) => transcode_raw(c.as_slice()),
            None => String::new(),
        }
    }

    /// Renders the last-modified time in the sidecar's fixed format; an
    /// absent timestamp renders as the platform's epoch.
    pub fn get_timestamp(&self) -> (r: String)
        requires
            self.timestamp.wf(),
        ensures
            r@ == timestamp_chars(self.timestamp),
    {
        let d = match self.timestamp {
            Timestamp::Absent => DateTime { year: 1980, month: 1, day: 1, hour: 0, minute: 0, second: 0 },
            Timestamp::Naive(d) => d,
            Timestamp::Utc(d) => d,
        };
        let mut r = String::new();
        push_char(&mut r, (48 + (d.year / 1000) as u8) as char);
        push_char(&mut r, (48 + ((d.year / 100) % 10) as u8) as char);
        push_char(&mut r, (48 + ((d.year / 10) % 10) as u8) as char);
        push_char(&mut r, (48 + (d.year % 10) as u8) as char);
        proof {
            assert(r@ =~= four_digit_chars(d.year));
        }
        push_char(&mut r, '-');
        push_two_digits(&mut r, d.month);
        push_char(&mut r, '-');
        push_two_digits(&mut r, d.day);
        push_char(&mut r, ' ');
        push_two_digits(&mut r, d.hour);
        push_char(&mut r, ':');
        push_two_digits(&mut r, d.minute);
        push_char(&mut r, ':');
        push_two_digits(&mut r, d.second);
        push_char(&mut r, '.');
        push_char(&mut r, '0');
        push_char(&mut r, '0');
        proof {
            assert(r@ =~= timestamp_chars(self.timestamp));
        }
        r
    }
}

} // verus!
