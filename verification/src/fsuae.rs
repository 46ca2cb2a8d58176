//! The FS-UAE extraction target: preserves platform metadata in one text
//! sidecar file per entry, holding the rendered permission flags, the
//! rendered timestamp and the transcoded comment on a single line.
use vstd::prelude::*;
use vstd::utf8::encode_utf8;

use crate::dircache::DirCache;
use crate::emutrait::Emu;
use crate::emutrait::SidecarWrite;
use crate::emutrait::join_step;
use crate::emutrait::needs_metadata_check;
use crate::emutrait::needs_metadata_spec;
use crate::emutrait::resolve_against;
use crate::emutrait::resolve_spec;
use crate::fileinfo::FileInfo;
use crate::fileinfo::flags_chars;
use crate::fileinfo::timestamp_chars;
use crate::transcode::transcode;
use crate::transcode::transcoded;
use crate::UnlhaError;

verus! {

/// Extraction targeting the FS-UAE emulator.
pub struct Fsuae {
    /// The extraction root directory.
    pub target_dir: String,
    /// The session's case-fold ledger.
    pub dir_cache: DirCache,
}

/// The fixed suffix appended to an entry's host path to name its sidecar.
pub open spec fn uaem_chars() -> Seq<char> {
    seq!['.', 'u', 'a', 'e', 'm']
}

/// The transcoded comment, or nothing when the entry carries none.
pub open spec fn sidecar_comment_chars(c: Option<Seq<u8>>) -> Seq<char> {
    match c {
        Some(b) => transcoded(b),
        None => Seq::empty(),
    }
}

/// The sidecar's single line: the eight permission-flag characters, one
/// space, the rendered timestamp, one space, the transcoded comment.
pub open spec fn sidecar_line_chars(info: &FileInfo) -> Seq<char> {
    flags_chars(info.protection_bits) + seq![' '] + timestamp_chars(info.timestamp) + seq![' ']
        + sidecar_comment_chars(info.comment.deep_view())
}

/// What planning a metadata write does for this target: an entry that
/// needs no metadata leaves the target untouched and plans nothing; any
/// other entry has its path resolved (recording casings in the ledger) and
/// yields an overwrite of its one-line text sidecar beside the resolved
/// path.
pub open spec fn fsuae_metadata_post(
    pre: Fsuae,
    post: Fsuae,
    info: &FileInfo,
    r: Result<Option<SidecarWrite>, UnlhaError>,
) -> bool {
    let dv = info.path_components.deep_view();
    let resolved = resolve_spec(pre.dir_cache@, dv);
    if !needs_metadata_spec(info) {
        post == pre && r matches Ok(None)
    } else {
        post.target_dir == pre.target_dir && post.dir_cache@ == resolved.0 && (r matches Ok(
            Some(w),
        ) && !w.append && w.path@ == join_step(pre.target_dir@, resolved.1) + uaem_chars()
            && w.data@ == encode_utf8(sidecar_line_chars(info)))
    }
}

impl Fsuae {
    /// A target writing FS-UAE metadata under the given root.
    pub fn new(target_dir: String) -> (r: Self)
        ensures
            r.wf(),
            r.target() == target_dir@,
            r.cache() == Map::<Seq<char>, Seq<char>>::empty(),
    {
        Fsuae { target_dir, dir_cache: DirCache::new() }
    }
}

impl Emu for Fsuae {
    open spec fn transcoded_name(s: Seq<u8>) -> Seq<char> {
        transcoded(s)
    }

    open spec fn resolved(cache: Map<Seq<char>, Seq<char>>, comps: Seq<Seq<u8>>) -> (
        Map<Seq<char>, Seq<char>>,
        Seq<char>,
    ) {
        resolve_spec(cache, comps)
    }

    open spec fn needs(info: &FileInfo) -> bool {
        needs_metadata_spec(info)
    }

    open spec fn metadata_pre(info: &FileInfo) -> bool {
        needs_metadata_spec(info) ==> info.timestamp.wf()
    }

    open spec fn metadata_post(
        pre: Self,
        post: Self,
        info: &FileInfo,
        r: Result<Option<SidecarWrite>, UnlhaError>,
    ) -> bool {
        fsuae_metadata_post(pre, post, info, r)
    }

    open spec fn wf(&self) -> bool {
        self.dir_cache.wf()
    }

    open spec fn target(&self) -> Seq<char> {
        self.target_dir@
    }

    open spec fn cache(&self) -> Map<Seq<char>, Seq<char>> {
        self.dir_cache@
    }

    fn get_target_dir(&self) -> (r: &String) {
        &self.target_dir
    }

    fn make_string(slice: &[u8]) -> (r: String) {
        transcode(slice)
    }

    fn needs_metadata(info: &FileInfo) -> (r: bool) {
        needs_metadata_check(info)
    }

    fn get_host_path(&mut self, info: &FileInfo) -> (r: String) {
        resolve_against(&self.target_dir, &mut self.dir_cache, info)
    }

    fn write_metadata(&mut self, info: &FileInfo) -> (r: Result<
        Option<SidecarWrite>,
        UnlhaError,
    >) {
        if !needs_metadata_check(info) {
            return Ok(None);
        }
        let host = resolve_against(&self.target_dir, &mut self.dir_cache, info);
        let mut line = info.get_flags();
        line.append(" ");
        let datetime = info.get_timestamp();
        line.append(datetime.as_str());
        line.append(" ");
        match &info.comment {
            Some(c) => {
                let comment = transcode(c.as_slice());
                line.append(comment.as_str());
                proof {
                    reveal_strlit(" ");
                    assert(" "@ =~= seq![' ']);
                    assert(c.deep_view() =~= c@);
                    assert(line@ =~= sidecar_line_chars(info));
                }
            },
            None => {
                proof {
                    reveal_strlit(" ");
                    assert(" "@ =~= seq![' ']);
                    assert(info.comment.deep_view() is None);
                    assert(line@ =~= sidecar_line_chars(info));
                }
            },
        }
        let data = line.as_str().as_bytes_vec();
        let mut path = host;
        path.append(".uaem");
        proof {
            reveal_strlit(".uaem");
            assert(".uaem"@ =~= uaem_chars());
        }
        Ok(Some(SidecarWrite { path, data, append: false }))
    }
}

} // verus!
