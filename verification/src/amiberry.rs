//! The Amiberry extraction target: preserves platform metadata in a fixed
//! 600-byte record appended to a per-directory sidecar database file.
use vstd::prelude::*;
use vstd::utf8::encode_utf8;

use crate::dircache::DirCache;
use crate::emutrait::Emu;
use crate::emutrait::SidecarWrite;
use crate::emutrait::join_step;
use crate::emutrait::needs_metadata_check;
use crate::emutrait::needs_metadata_spec;
use crate::emutrait::resolve_against;
use crate::emutrait::resolve_spec;
use crate::fileinfo::FileInfo;
use crate::transcode::transcode;
use crate::transcode::transcoded;
use crate::UnlhaError;

verus! {

/// Extraction targeting the Amiberry emulator.
pub struct Amiberry {
    /// The extraction root directory.
    pub target_dir: String,
    /// The session's case-fold ledger.
    pub dir_cache: DirCache,
}

/// The reserved name of the per-directory sidecar database file.
pub open spec fn db_file_chars() -> Seq<char> {
    seq!['_', 'U', 'A', 'E', 'F', 'S', 'D', 'B', '.', '_', '_', '_']
}

pub open spec fn last_separator_cut(s: Seq<char>) -> int
    decreases s.len(),
{
    if s.len() == 0 {
        0
    } else if s.last() == '/' {
        s.len() as int
    } else {
        last_separator_cut(s.drop_last())
    }
}

/// The path of the sidecar database beside a resolved host path: the host
/// path up to and including its last separator, then the reserved name.
pub open spec fn db_path_chars(host: Seq<char>) -> Seq<char> {
    host.take(last_separator_cut(host)) + db_file_chars()
}

proof fn lemma_last_separator_at(s: Seq<char>, m: int)
    requires
        0 <= m <= s.len(),
        forall|j: int| m <= j < s.len() ==> s[j] != '/',
        m > 0 ==> s[m - 1] == '/',
    ensures
        last_separator_cut(s) == m,
    decreases s.len(),
{
    if s.len() == 0 {
    } else if s.last() == '/' {
        assert(m == s.len());
    } else {
        assert(m < s.len());
        lemma_last_separator_at(s.drop_last(), m);
    }
}

/// Whether any field of the entry would not fit its fixed slot in the
/// 600-byte record: the native leaf name and the transcoded leaf name each
/// have 257 bytes, the comment has 81.
pub open spec fn record_overflow(aname: Seq<u8>, nname: Seq<u8>, comment: Option<Seq<u8>>) -> bool {
    aname.len() > 257 || nname.len() > 257 || (comment matches Some(c) && c.len() > 81)
}

/// One byte of the 600-byte record: a record-kind marker, the protection
/// bits big-endian at offsets 3 and 4, the native leaf name from offset 5,
/// the transcoded leaf name from offset 262, the comment from offset 519,
/// zero everywhere else.
pub open spec fn record_byte(
    pb: u16,
    aname: Seq<u8>,
    nname: Seq<u8>,
    comment: Option<Seq<u8>>,
    i: int,
) -> u8 {
    if i == 0 {
        1
    } else if i == 3 {
        (pb >> 8) as u8
    } else if i == 4 {
        (pb & 0xff) as u8
    } else if 5 <= i && i < 5 + aname.len() {
        aname[i - 5]
    } else if 262 <= i && i < 262 + nname.len() {
        nname[i - 262]
    } else if comment matches Some(c) && 519 <= i && i < 519 + c.len() {
        comment.unwrap()[i - 519]
    } else {
        0
    }
}

/// The whole 600-byte record.
pub open spec fn record_bytes(
    pb: u16,
    aname: Seq<u8>,
    nname: Seq<u8>,
    comment: Option<Seq<u8>>,
) -> Seq<u8> {
    Seq::new(600, |i: int| record_byte(pb, aname, nname, comment, i))
}

/// What planning a metadata write does for this target: an entry that
/// needs no metadata leaves the target untouched and plans nothing; any
/// other entry has its path resolved (recording casings in the ledger) and
/// either overflows a record slot or yields an append of its record to the
/// sidecar database beside the resolved path.
pub open spec fn amiberry_metadata_post(
    pre: Amiberry,
    post: Amiberry,
    info: &FileInfo,
    r: Result<Option<SidecarWrite>, UnlhaError>,
) -> bool {
    let dv = info.path_components.deep_view();
    let aname = dv.last();
    let nname = encode_utf8(transcoded(aname));
    let resolved = resolve_spec(pre.dir_cache@, dv);
    if !needs_metadata_spec(info) {
        post == pre && r matches Ok(None)
    } else {
        post.target_dir == pre.target_dir && post.dir_cache@ == resolved.0 && if record_overflow(
            aname,
            nname,
            info.comment.deep_view(),
        ) {
            r == Err::<Option<SidecarWrite>, UnlhaError>(UnlhaError::EncodingOverflow)
        } else {
            r matches Ok(Some(w)) && w.append && w.path@ == db_path_chars(
                join_step(pre.target_dir@, resolved.1),
            ) && w.data@ == record_bytes(
                info.protection_bits,
                aname,
                nname,
                info.comment.deep_view(),
            )
        }
    }
}

/// Builds the fixed 600-byte record for one entry.
fn build_record(pb: u16, aname: &[u8], nname: &[u8], comment: &Option<Vec<u8>>) -> (r: Vec<u8>)
    requires
        aname@.len() <= 257,
        nname@.len() <= 257,
        match *comment {
            Some(c) => c@.len() <= 81,
            None => true,
        },
    ensures
        r@ == record_bytes(pb, aname@, nname@, comment.deep_view()),
{
    let mut buff: Vec<u8> = vec![0u8; 600];
    buff[0] = 1;
    buff[3] = (pb >> 8) as u8;
    buff[4] = (pb & 0xff) as u8;
    let mut j: usize = 0;
    while j < aname.len()
        invariant
            j <= aname@.len() <= 257,
            buff@.len() == 600,
            buff@[0] == 1,
            buff@[3] == (pb >> 8) as u8,
            buff@[4] == (pb & 0xff) as u8,
            forall|i: int| 5 <= i < 5 + j ==> buff@[i] == aname@[i - 5],
            forall|i: int|
                0 <= i < 600 && !(i == 0 || i == 3 || i == 4 || (5 <= i < 5 + j)) ==> buff@[i]
                    == 0,
        decreases aname@.len() - j,
    {
        buff[5 + j] = aname[j];
        j = j + 1;
    }
    let mut j: usize = 0;
    while j < nname.len()
        invariant
            j <= nname@.len() <= 257,
            aname@.len() <= 257,
            buff@.len() == 600,
            buff@[0] == 1,
            buff@[3] == (pb >> 8) as u8,
            buff@[4] == (pb & 0xff) as u8,
            forall|i: int| 5 <= i < 5 + aname@.len() ==> buff@[i] == aname@[i - 5],
            forall|i: int| 262 <= i < 262 + j ==> buff@[i] == nname@[i - 262],
            forall|i: int|
                0 <= i < 600 && !(i == 0 || i == 3 || i == 4 || (5 <= i < 5 + aname@.len()) || (
                262 <= i < 262 + j)) ==> buff@[i] == 0,
        decreases nname@.len() - j,
    {
        buff[262 + j] = nname[j];
        j = j + 1;
    }
    match comment {
        Some(c) => {
            let mut j: usize = 0;
            while j < c.len()
                invariant
                    j <= c@.len() <= 81,
                    aname@.len() <= 257,
                    nname@.len() <= 257,
                    buff@.len() == 600,
                    buff@[0] == 1,
                    buff@[3] == (pb >> 8) as u8,
                    buff@[4] == (pb & 0xff) as u8,
                    forall|i: int| 5 <= i < 5 + aname@.len() ==> buff@[i] == aname@[i - 5],
                    forall|i: int| 262 <= i < 262 + nname@.len() ==> buff@[i] == nname@[i - 262],
                    forall|i: int| 519 <= i < 519 + j ==> buff@[i] == c@[i - 519],
                    forall|i: int|
                        0 <= i < 600 && !(i == 0 || i == 3 || i == 4 || (5 <= i < 5
                            + aname@.len()) || (262 <= i < 262 + nname@.len()) || (519 <= i < 519
                            + j)) ==> buff@[i] == 0,
                decreases c@.len() - j,
            {
                buff[519 + j] = c[j];
                j = j + 1;
            }
        },
        None => {},
    }
    proof {
        assert forall|i: int| 0 <= i < 600 implies buff@[i] == record_byte(
            pb,
            aname@,
            nname@,
            comment.deep_view(),
            i,
        ) by {}
        assert(buff@ =~= record_bytes(pb, aname@, nname@, comment.deep_view()));
    }
    buff
}

/// The path of the sidecar database beside the given resolved host path.
fn db_path(host: &String) -> (r: String)
    ensures
        r@ == db_path_chars(host@),
{
    let n = host.as_str().unicode_len();
    let mut cut = n;
    while cut > 0 && host.as_str().get_char(cut - 1) != '/'
        invariant
            cut <= n == host@.len(),
            forall|j: int| cut <= j < n ==> host@[j] != '/',
        decreases cut,
    {
        cut = cut - 1;
    }
    proof {
        lemma_last_separator_at(host@, cut as int);
    }
    let mut r = String::from_str(host.as_str().substring_char(0, cut));
    r.append("_UAEFSDB.___");
    proof {
        reveal_strlit("_UAEFSDB.___");
        assert("_UAEFSDB.___"@ =~= db_file_chars());
        assert(r@ =~= db_path_chars(host@));
    }
    r
}

impl Amiberry {
    /// A target writing Amiberry metadata under the given root.
    pub fn new(target_dir: String) -> (r: Self)
        ensures
            r.wf(),
            r.target() == target_dir@,
            r.cache() == Map::<Seq<char>, Seq<char>>::empty(),
    {
        Amiberry { target_dir, dir_cache: DirCache::new() }
    }
}

impl Emu for Amiberry {
    open spec fn transcoded_name(s: Seq<u8>) -> Seq<char> {
        transcoded(s)
    }

    open spec fn resolved(cache: Map<Seq<char>, Seq<char>>, comps: Seq<Seq<u8>>) -> (
        Map<Seq<char>, Seq<char>>,
        Seq<char>,
    ) {
        resolve_spec(cache, comps)
    }

    open spec fn needs(info: &FileInfo) -> bool {
        needs_metadata_spec(info)
    }

    open spec fn metadata_pre(info: &FileInfo) -> bool {
        needs_metadata_spec(info) ==> info.path_components@.len() > 0
    }

    open spec fn metadata_post(
        pre: Self,
        post: Self,
        info: &FileInfo,
        r: Result<Option<SidecarWrite>, UnlhaError>,
    ) -> bool {
        amiberry_metadata_post(pre, post, info, r)
    }

    open spec fn wf(&self) -> bool {
        self.dir_cache.wf()
    }

    open spec fn target(&self) -> Seq<char> {
        self.target_dir@
    }

    open spec fn cache(&self) -> Map<Seq<char>, Seq<char>> {
        self.dir_cache@
    }

    fn get_target_dir(&self) -> (r: &String) {
        &self.target_dir
    }

    fn make_string(slice: &[u8]) -> (r: String) {
        transcode(slice)
    }

    fn needs_metadata(info: &FileInfo) -> (r: bool) {
        needs_metadata_check(info)
    }

    fn get_host_path(&mut self, info: &FileInfo) -> (r: String) {
        resolve_against(&self.target_dir, &mut self.dir_cache, info)
    }

    fn write_metadata(&mut self, info: &FileInfo) -> (r: Result<
        Option<SidecarWrite>,
        UnlhaError,
    >) {
        if !needs_metadata_check(info) {
            return Ok(None);
        }
        let ghost dv = info.path_components.deep_view();
        let n = info.path_components.len();
        let aname = &info.path_components[n - 1];
        proof {
            assert(aname@ =~= dv.last());
        }
        let nname_db = transcode(aname.as_slice());
        let host = resolve_against(&self.target_dir, &mut self.dir_cache, info);
        if aname.len() > 257 {
            return Err(UnlhaError::EncodingOverflow);
        }
        let nname_bytes = nname_db.as_str().as_bytes();
        if nname_bytes.len() > 257 {
            return Err(UnlhaError::EncodingOverflow);
        }
        match &info.comment {
            Some(c) => {
                if c.len() > 81 {
                    return Err(UnlhaError::EncodingOverflow);
                }
            },
            None => {},
        }
        let data = build_record(info.protection_bits, aname.as_slice(), nname_bytes, &info.comment);
        let path = db_path(&host);
        Ok(Some(SidecarWrite { path, data, append: true }))
    }
}

} // verus!
