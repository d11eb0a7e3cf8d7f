//! Resolving the filesystem path of the vendor signing executable.
//!
//! The host reports the kit root recorded in its installed-roots
//! configuration, the version identifiers enumerated beneath it, its
//! processor architecture, and which candidate paths hold the executable;
//! everything else — ranking the versions, deriving the candidate paths and
//! picking the first present one — is decided here.
use vstd::prelude::*;
use vstd::string::StrSliceExecFns;
use vstd::string::StringExecFns;

use crate::error::CodeSignError;
use crate::order::lex_lt;
use crate::order::sort_desc;
use crate::order::sort_versions_descending;

verus! {

/// A host processor architecture the vendor tool is shipped for.
#[derive(Clone, Copy, Debug, PartialEq, Eq)]
pub enum Architecture {
    Bits32,
    Bits64,
}

/// What the host's installed-roots configuration records: the kit root
/// directory and the installed version identifiers enumerated beneath it.
/// Entries that fail to enumerate are simply absent from `versions`.
pub struct InstalledRoots {
    pub kits_root: String,
    pub versions: Vec<String>,
}

/// An owned handle to one resolved signing executable path.  Immutable
/// once constructed; created by the locator only.
#[derive(Debug)]
pub struct SignTool {
    signtool_path: String,
}

impl View for SignTool {
    type V = Seq<char>;

    closed spec fn view(&self) -> Seq<char> {
        self.signtool_path@
    }
}

/// One path component appended below a directory.
pub open spec fn join_path(dir: Seq<char>, name: Seq<char>) -> Seq<char> {
    dir + seq!['\\'] + name
}

/// The kit's shared `bin` directory, derived from the root path.
pub open spec fn spec_bin_dir(root: Seq<char>) -> Seq<char> {
    join_path(root, "bin"@)
}

/// The candidate bin directories in search order: one per discovered
/// version, newest (lexically greatest) first, followed by the bare shared
/// bin directory as the single fallback for older kit layouts.
pub open spec fn spec_search_order(root: Seq<char>, versions: Seq<Seq<char>>) -> Seq<Seq<char>> {
    sort_desc(versions).map_values(|v: Seq<char>| join_path(spec_bin_dir(root), v)).push(
        spec_bin_dir(root),
    )
}

/// The architecture-specific directory name below a candidate bin
/// directory.
pub open spec fn spec_arch_dir(arch: Architecture) -> Seq<char> {
    match arch {
        Architecture::Bits32 => "x86"@,
        Architecture::Bits64 => "x64"@,
    }
}

/// The full candidate path of the signing executable below one bin
/// directory.
pub open spec fn spec_tool_path(dir: Seq<char>, arch: Architecture) -> Seq<char> {
    join_path(join_path(dir, spec_arch_dir(arch)), "signtool.exe"@)
}

/// All candidate executable paths, in search order.
pub open spec fn spec_tool_paths(root: Seq<char>, versions: Seq<Seq<char>>, arch: Architecture) -> Seq<
    Seq<char>,
> {
    spec_search_order(root, versions).map_values(|d: Seq<char>| spec_tool_path(d, arch))
}

/// The first candidate marked present, scanning in order; `None` when no
/// candidate is present.
pub open spec fn spec_first_match(cands: Seq<Seq<char>>, present: Seq<bool>) -> Option<Seq<char>>
    decreases cands.len(),
{
    if cands.len() == 0 {
        None
    } else if present[0] {
        Some(cands[0])
    } else {
        spec_first_match(cands.drop_first(), present.drop_first())
    }
}

/// Joins one path component below `dir` with the platform separator.
fn join_dir(dir: &str, name: &str) -> (r: String)
    ensures
        r@ == join_path(dir@, name@),
{
    let mut r = dir.to_owned();
    r.append("\\");
    r.append(name);
    proof {
        reveal_strlit("\\");
        assert("\\"@ =~= seq!['\\']);
        assert(r@ =~= join_path(dir@, name@));
    }
    r
}

/// The architecture-specific directory name.
pub fn arch_directory(arch: Architecture) -> (r: &'static str)
    ensures
        r@ == spec_arch_dir(arch),
{
    match arch {
        Architecture::Bits32 => "x86",
        Architecture::Bits64 => "x64",
    }
}

/// Builds the candidate bin directories for one kit root: the discovered
/// versions newest first, each below the shared bin directory, and the
/// bare bin directory itself appended last as the fallback.
pub fn search_order(kits_root: &str, versions: &Vec<String>) -> (r: Vec<String>)
    ensures
        r.deep_view() == spec_search_order(kits_root@, versions.deep_view()),
{
    let bin = join_dir(kits_root, "bin");
    let sorted = sort_versions_descending(versions);
    let ghost mapped = sort_desc(versions.deep_view()).map_values(
        (|v: Seq<char>| join_path(spec_bin_dir(kits_root@), v)),
    );
    let mut r: Vec<String> = Vec::new();
    proof {
        assert(r.deep_view() =~= mapped.take(0));
    }
    let mut i: usize = 0;
    while i < sorted.len()
        invariant
            i <= sorted@.len(),
            sorted.deep_view() == sort_desc(versions.deep_view()),
            bin@ == spec_bin_dir(kits_root@),
            mapped == sort_desc(versions.deep_view()).map_values(
                (|v: Seq<char>| join_path(spec_bin_dir(kits_root@), v)),
            ),
            r.deep_view() == mapped.take(i as int),
        decreases sorted@.len() - i,
    {
        let p = join_dir(bin.as_str(), sorted[i].as_str());
        r.push(p);
        proof {
            assert(sorted@[i as int]@ == sorted.deep_view()[i as int]);
            assert(mapped.take(i as int + 1) =~= mapped.take(i as int).push(mapped[i as int]));
            assert(r.deep_view() =~= mapped.take(i as int + 1));
        }
        i = i + 1;
    }
    r.push(bin);
    proof {
        assert(mapped.take(sorted@.len() as int) =~= mapped);
        assert(r.deep_view() =~= mapped.push(spec_bin_dir(kits_root@)));
    }
    r
}

/// Builds the full candidate executable paths in search order for one
/// architecture.
pub fn candidate_tool_paths(roots: &InstalledRoots, arch: Architecture) -> (r: Vec<String>)
    ensures
        r.deep_view() == spec_tool_paths(roots.kits_root@, roots.versions.deep_view(), arch),
{
    let dirs = search_order(roots.kits_root.as_str(), &roots.versions);
    let arch_dir = arch_directory(arch);
    let ghost mapped = spec_search_order(roots.kits_root@, roots.versions.deep_view()).map_values(
        (|d: Seq<char>| spec_tool_path(d, arch)),
    );
    let mut r: Vec<String> = Vec::new();
    proof {
        assert(r.deep_view() =~= mapped.take(0));
    }
    let mut i: usize = 0;
    while i < dirs.len()
        invariant
            i <= dirs@.len(),
            arch_dir@ == spec_arch_dir(arch),
            dirs.deep_view() == spec_search_order(roots.kits_root@, roots.versions.deep_view()),
            mapped == spec_search_order(roots.kits_root@, roots.versions.deep_view()).map_values(
                (|d: Seq<char>| spec_tool_path(d, arch)),
            ),
            r.deep_view() == mapped.take(i as int),
        decreases dirs@.len() - i,
    {
        let d = join_dir(dirs[i].as_str(), arch_dir);
        let p = join_dir(d.as_str(), "signtool.exe");
        r.push(p);
        proof {
            assert(dirs@[i as int]@ == dirs.deep_view()[i as int]);
            assert(mapped.take(i as int + 1) =~= mapped.take(i as int).push(mapped[i as int]));
            assert(r.deep_view() =~= mapped.take(i as int + 1));
        }
        i = i + 1;
    }
    proof {
        assert(mapped.take(dirs@.len() as int) =~= mapped);
    }
    r
}

impl SignTool {
    /// The path of the resolved signing executable.
    pub fn tool_path(&self) -> (r: &str)
        ensures
            r@ == self@,
    {
        self.signtool_path.as_str()
    }

    /// Resolves one signing-executable path from what the host reported,
    /// or fails clearly when none is usable.
    ///
    /// `lookup` is the installed-roots configuration, `None` when it could
    /// not be read; `arch` is the detected architecture, `None` when the
    /// host is neither of the two supported; `tool_present` says, for each
    /// candidate of `candidate_tool_paths` in order, whether the executable
    /// exists there.  A failed lookup is reported before anything else, an
    /// unsupported architecture next, and otherwise the first present
    /// candidate wins — so the newest installed kit version is preferred
    /// and the bare bin directory is only a fallback.
    #[verifier::loop_isolation(false)]
    pub fn locate_latest(
        lookup: &Option<InstalledRoots>,
        arch: Option<Architecture>,
        tool_present: &Vec<bool>,
    ) -> (r: Result<SignTool, CodeSignError>)
        requires
            lookup matches Some(ir) ==> (arch is Some ==> tool_present@.len()
                == ir.versions@.len() + 1),
        ensures
            lookup is None ==> r == Err::<SignTool, CodeSignError>(CodeSignError::LookupFailed),
            lookup is Some && arch is None ==> r == Err::<SignTool, CodeSignError>(
                CodeSignError::UnsupportedArchitecture,
            ),
            lookup matches Some(ir) ==> (arch matches Some(a) ==> (match spec_first_match(
                spec_tool_paths(ir.kits_root@, ir.versions.deep_view(), a),
                tool_present@,
            ) {
                Some(p) => r matches Ok(t) && t@ == p,
                None => r == Err::<SignTool, CodeSignError>(CodeSignError::NotFound),
            })),
    {
        match lookup {
            None => Err(CodeSignError::LookupFailed),
            Some(ir) => match arch {
                None => Err(CodeSignError::UnsupportedArchitecture),
                Some(a) => {
                    let cands = candidate_tool_paths(ir, a);
                    let ghost cv = cands.deep_view();
                    let ghost pv = tool_present@;
                    proof {
                        crate::order::lemma_sort_desc_len(ir.versions.deep_view());
                        assert(cv.len() == ir.versions@.len() + 1);
                        assert(cv.skip(0) =~= cv);
                        assert(pv.skip(0) =~= pv);
                    }
                    let mut i: usize = 0;
                    while i < cands.len()
                        invariant
                            i <= cv.len(),
                            cv.len() == pv.len(),
                            cands.deep_view() == cv,
                            tool_present@ == pv,
                            cands@.len() == cv.len(),
                            spec_first_match(cv, pv) == spec_first_match(
                                cv.skip(i as int),
                                pv.skip(i as int),
                            ),
                        decreases cv.len() - i,
                    {
                        if tool_present[i] {
                            proof {
                                assert(cv.skip(i as int)[0] == cv[i as int]);
                                assert(pv.skip(i as int)[0] == pv[i as int]);
                            }
                            let path = cands[i].clone();
                            return Ok(SignTool { signtool_path: path });
                        }
                        proof {
                            assert(cv.skip(i as int)[0] == cv[i as int]);
                            assert(pv.skip(i as int)[0] == pv[i as int]);
                            assert(cv.skip(i as int).drop_first() =~= cv.skip(i as int + 1));
                            assert(pv.skip(i as int).drop_first() =~= pv.skip(i as int + 1));
                        }
                        i = i + 1;
                    }
                    proof {
                        assert(cv.skip(i as int).len() == 0);
                    }
                    Err(CodeSignError::NotFound)
                },
            },
        }
    }
}

/// The search order is the discovered versions in strictly descending
/// lexical order — they are pairwise distinct, being enumerated
/// configuration keys — followed by exactly one fallback entry, the bare
/// bin directory, appended last, whatever the version count.
pub proof fn lemma_search_order_ranked(root: Seq<char>, versions: Seq<Seq<char>>)
    requires
        versions.no_duplicates(),
    ensures
        spec_search_order(root, versions).len() == versions.len() + 1,
        spec_search_order(root, versions).last() == spec_bin_dir(root),
        forall|i: int|
            0 <= i < versions.len() ==> spec_search_order(root, versions)[i] == join_path(
                spec_bin_dir(root),
                #[trigger] sort_desc(versions)[i],
            ),
        sort_desc(versions).to_multiset() == versions.to_multiset(),
        forall|i: int, j: int|
            0 <= i < j < versions.len() ==> lex_lt(
                #[trigger] spec_search_order(root, versions)[j],
                #[trigger] spec_search_order(root, versions)[i],
            ),
{
    let so = spec_search_order(root, versions);
    let sv = sort_desc(versions);
    crate::order::lemma_sort_desc_len(versions);
    crate::order::lemma_sort_desc_elements(versions);
    crate::order::lemma_sort_desc_strict(versions);
    assert forall|i: int, j: int| 0 <= i < j < versions.len() implies lex_lt(
        #[trigger] so[j],
        #[trigger] so[i],
    ) by {
        let p = spec_bin_dir(root) + seq!['\\'];
        crate::order::lemma_lex_lt_common_prefix(p, sv[j], sv[i]);
        assert(p + sv[j] =~= join_path(spec_bin_dir(root), sv[j]));
        assert(p + sv[i] =~= join_path(spec_bin_dir(root), sv[i]));
        assert(lex_lt(sv[j], sv[i]));
    }
}

/// Scanning in order, the first present candidate is the one resolved.
pub proof fn lemma_first_match_at(cands: Seq<Seq<char>>, present: Seq<bool>, k: int)
    requires
        cands.len() == present.len(),
        0 <= k < cands.len(),
        present[k],
        forall|i: int| 0 <= i < k ==> !present[i],
    ensures
        spec_first_match(cands, present) == Some(cands[k]),
    decreases k,
{
    if k > 0 {
        assert(!present[0]);
        assert forall|i: int| 0 <= i < k - 1 implies !present.drop_first()[i] by {
            assert(present.drop_first()[i] == present[i + 1]);
        }
        lemma_first_match_at(cands.drop_first(), present.drop_first(), k - 1);
        assert(cands.drop_first()[k - 1] == cands[k]);
        assert(present.drop_first()[k - 1] == present[k]);
    }
}

/// When the executable is present only at the fallback, the fallback path
/// is still resolved: version directories that lack the executable never
/// mask the bare bin directory.
pub proof fn lemma_locate_fallback_only(
    root: Seq<char>,
    versions: Seq<Seq<char>>,
    arch: Architecture,
    present: Seq<bool>,
)
    requires
        present.len() == versions.len() + 1,
        forall|i: int| 0 <= i < versions.len() ==> !present[i],
        present[versions.len() as int],
    ensures
        spec_first_match(spec_tool_paths(root, versions, arch), present) == Some(
            spec_tool_path(spec_bin_dir(root), arch),
        ),
{
    let tp = spec_tool_paths(root, versions, arch);
    crate::order::lemma_sort_desc_len(versions);
    assert(tp.len() == versions.len() + 1);
    assert(tp[versions.len() as int] == spec_tool_path(spec_bin_dir(root), arch));
    lemma_first_match_at(tp, present, versions.len() as int);
}

/// Among the candidates the first present one wins; under the strictly
/// descending search order that is the lexically greatest version whose
/// directory holds the executable.
pub proof fn lemma_locate_prefers_greatest_version(
    root: Seq<char>,
    versions: Seq<Seq<char>>,
    arch: Architecture,
    present: Seq<bool>,
    k: int,
)
    requires
        versions.no_duplicates(),
        present.len() == versions.len() + 1,
        0 <= k < versions.len(),
        present[k],
        forall|i: int| 0 <= i < k ==> !present[i],
    ensures
        spec_first_match(spec_tool_paths(root, versions, arch), present) == Some(
            spec_tool_path(join_path(spec_bin_dir(root), sort_desc(versions)[k]), arch),
        ),
        forall|i: int|
            0 <= i < versions.len() && present[i] && i != k ==> lex_lt(
                #[trigger] sort_desc(versions)[i],
                sort_desc(versions)[k],
            ),
{
    let tp = spec_tool_paths(root, versions, arch);
    let sv = sort_desc(versions);
    crate::order::lemma_sort_desc_len(versions);
    crate::order::lemma_sort_desc_strict(versions);
    assert(tp.len() == versions.len() + 1);
    assert(tp[k] == spec_tool_path(join_path(spec_bin_dir(root), sv[k]), arch));
    lemma_first_match_at(tp, present, k);
}

/// Queries the processor architecture of the running host.
///
/// Relies on `bitness::os_bitness`, which inspects the operating system;
/// the outcome depends on the machine alone, so nothing is promised of it.
/// A 32-bit x86 host maps to `Bits32` and a 64-bit one to `Bits64`; any
/// other report, and a failed detection, map to `None` (unsupported).
#[verifier::external_body]
pub fn detect_architecture() -> Option<Architecture> {
    match bitness::os_bitness() {
        Ok(bitness::Bitness::X86_32) => Some(Architecture::Bits32),
        Ok(bitness::Bitness::X86_64) => Some(Architecture::Bits64),
        Ok(bitness::Bitness::Unknown) => None,
        Err(_) => None,
    }
}

} // verus!
