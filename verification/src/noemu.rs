//! The plain extraction target, used when the destination is not a
//! specific emulator: names are mapped byte-to-codepoint with no
//! percent-encoding, nothing is case-folded, and no metadata is ever
//! preserved. Names with host-illegal characters may therefore produce
//! invalid host paths; that is this target's accepted limitation.
use vstd::prelude::*;

use crate::dircache::DirCache;
use crate::emutrait::Emu;
use crate::emutrait::SidecarWrite;
use crate::emutrait::join_step;
use crate::emutrait::plain_path;
use crate::fileinfo::FileInfo;
use crate::transcode::raw_transcoded;
use crate::transcode::transcode_raw;
use crate::UnlhaError;

verus! {

/// Extraction without an emulator target.
pub struct NoEmu {
    /// The extraction root directory.
    pub target_dir: String,
    /// The session ledger; this target never consults it.
    pub dir_cache: DirCache,
}

impl NoEmu {
    /// A plain target extracting under the given root.
    pub fn new(target_dir: String) -> (r: Self)
        ensures
            r.wf(),
            r.target() == target_dir@,
            r.cache() == Map::<Seq<char>, Seq<char>>::empty(),
    {
        NoEmu { target_dir, dir_cache: DirCache::new() }
    }
}

impl Emu for NoEmu {
    open spec fn transcoded_name(s: Seq<u8>) -> Seq<char> {
        raw_transcoded(s)
    }

    open spec fn resolved(cache: Map<Seq<char>, Seq<char>>, comps: Seq<Seq<u8>>) -> (
        Map<Seq<char>, Seq<char>>,
        Seq<char>,
    ) {
        (cache, plain_path(comps))
    }

    open spec fn needs(info: &FileInfo) -> bool {
        false
    }

    open spec fn metadata_pre(info: &FileInfo) -> bool {
        true
    }

    open spec fn metadata_post(
        pre: Self,
        post: Self,
        info: &FileInfo,
        r: Result<Option<SidecarWrite>, UnlhaError>,
    ) -> bool {
        post == pre && r matches Ok(None)
    }

    open spec fn wf(&self) -> bool {
        self.dir_cache.wf()
    }

    open spec fn target(&self) -> Seq<char> {
        self.target_dir@
    }

    open spec fn cache(&self) -> Map<Seq<char>, Seq<char>> {
        self.dir_cache@
    }

    fn get_target_dir(&self) -> (r: &String) {
        &self.target_dir
    }

    fn make_string(slice: &[u8]) -> (r: String) {
        transcode_raw(slice)
    }

    fn needs_metadata(info: &FileInfo) -> (r: bool) {
        false
    }

    fn get_host_path(&mut self, info: &FileInfo) -> (r: String) {
        let ghost dv = info.path_components.deep_view();
        let mut rel = String::new();
        let mut i: usize = 0;
        proof {
            assert(dv.take(0) =~= Seq::<Seq<u8>>::empty());
        }
        while i < info.path_components.len()
            invariant
                i <= dv.len(),
                dv == info.path_components.deep_view(),
                rel@ == plain_path(dv.take(i as int)),
            decreases dv.len() - i,
        {
            let ghost pre = rel@;
            let comp = &info.path_components[i];
            proof {
                assert(dv[i as int] =~= comp@);
            }
            let t = transcode_raw(comp.as_slice());
            if !rel.as_str().is_empty() {
                rel.append("/");
            }
            rel.append(t.as_str());
            proof {
                if pre.len() == 0 {
                    assert(rel@ =~= join_step(pre, t@));
                } else {
                    reveal_strlit("/");
                    assert("/"@ =~= seq!['/']);
                    assert(rel@ =~= join_step(pre, t@));
                }
                assert(dv.take(i + 1).drop_last() =~= dv.take(i as int));
                assert(dv.take(i + 1).last() == dv[i as int]);
            }
            i = i + 1;
        }
        proof {
            assert(dv.take(dv.len() as int) =~= dv);
        }
        if self.target_dir.as_str().is_empty() {
            rel
        } else {
            let mut r = self.target_dir.clone();
            r.append("/");
            r.append(rel.as_str());
            proof {
                reveal_strlit("/");
                assert("/"@ =~= seq!['/']);
                assert(r@ =~= join_step(self.target_dir@, plain_path(dv)));
            }
            r
        }
    }

    fn write_metadata(&mut self, info: &FileInfo) -> (r: Result<
        Option<SidecarWrite>,
        UnlhaError,
    >) {
        Ok(None)
    }
}

} // verus!
