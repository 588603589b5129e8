//! The development environment: where the managed toolchain and the
//! emulator are looked for, which volumes are PSPs, and the status shown
//! to the user, computed from what was found on the machine.
use vstd::prelude::*;
use vstd::string::StringExecFns;
use crate::order::{
    is_ranked, lemma_ranked_sorted, lemma_ranked_sorted_members, lemma_text_le_total,
    lemma_text_le_transitive, rank_sort, ranked, text_le, text_no_later, total_order, views_of,
    Ranked,
};
use crate::path::{join_path, path_join};
use crate::text::{chars_of, decimal, option_view, owned, push_decimal, strings_view};

verus! {

// ---------------------------------------------------------------------------
// Toolchain and emulator
// ---------------------------------------------------------------------------
pub const TOOLCHAIN_MISSING: &'static str = "La toolchain PSPDEV gérée est absente";

/// The folder of the toolchain's programs, once the compiler (`bin/psp-g++`)
/// and `bin/psp-config` were both found as files under `root`.
pub fn toolchain_bin(root: &str, compiler_found: bool, config_found: bool) -> (r: Result<
    String,
    String,
>)
    ensures
        match r {
            Ok(p) => compiler_found && config_found && p@ == join_path(root@, "bin"@),
            Err(e) => !(compiler_found && config_found) && e@ == TOOLCHAIN_MISSING@,
        },
{
    if !compiler_found || !config_found {
        return Err(owned(TOOLCHAIN_MISSING));
    }
    Ok(path_join(root, "bin"))
}

pub const PPSSPP_SDL: &'static str = "/Applications/PPSSPPSDL.app/Contents/MacOS/PPSSPPSDL";

pub const PPSSPP_APP: &'static str = "/Applications/PPSSPP.app/Contents/MacOS/PPSSPP";

/// Where the emulator is looked for, in order.
pub open spec fn ppsspp_places() -> Seq<Seq<char>> {
    seq![PPSSPP_SDL@, PPSSPP_APP@]
}

/// The places where the emulator may be installed, in the order in which
/// they are tried.
pub fn ppsspp_candidates() -> (r: Vec<String>)
    ensures
        strings_view(r@) == ppsspp_places(),
{
    let mut r: Vec<String> = Vec::new();
    r.push(owned(PPSSPP_SDL));
    r.push(owned(PPSSPP_APP));
    proof {
        assert(strings_view(r@) =~= ppsspp_places());
    }
    r
}

/// The first place, in order, where a file was found (`found[i]` tells
/// whether the `i`th place holds a file).
pub open spec fn first_found(places: Seq<Seq<char>>, found: Seq<bool>) -> Option<Seq<char>>
    decreases places.len(),
{
    if places.len() == 0 {
        None
    } else if found.len() > 0 && found[0] {
        Some(places[0])
    } else {
        first_found(places.drop_first(), if found.len() > 0 {
            found.drop_first()
        } else {
            found
        })
    }
}

/// The emulator to launch: the first candidate place that holds a file.
pub fn ppsspp_executable(found: &Vec<bool>) -> (r: Option<String>)
    ensures
        option_view(r) == first_found(ppsspp_places(), found@),
{
    let places = ppsspp_candidates();
    let ghost pv = strings_view(places@);
    let mut i: usize = 0;
    proof {
        assert(pv.skip(0) =~= pv);
        assert(found@.skip(0) =~= found@);
    }
    while i < places.len()
        invariant
            i <= places.len(),
            pv == strings_view(places@),
            pv == ppsspp_places(),
            first_found(pv, found@) == first_found(
                pv.skip(i as int),
                if i <= found.len() {
                    found@.skip(i as int)
                } else {
                    Seq::<bool>::empty()
                },
            ),
        decreases places.len() - i,
    {
        let ghost rest = pv.skip(i as int);
        let ghost fr = if i <= found.len() {
            found@.skip(i as int)
        } else {
            Seq::<bool>::empty()
        };
        proof {
            assert(rest[0] == places@[i as int]@);
            assert(rest.drop_first() =~= pv.skip(i + 1));
            if i < found.len() {
                assert(fr[0] == found@[i as int]);
                assert(fr.drop_first() =~= found@.skip(i + 1));
            } else if i == found.len() {
                assert(fr =~= Seq::<bool>::empty());
            }
        }
        if i < found.len() && found[i] {
            return Some(places[i].clone());
        }
        i = i + 1;
    }
    None
}

// ---------------------------------------------------------------------------
// PSP volumes
// ---------------------------------------------------------------------------
/// A mounted volume: its path, whether it holds a folder `PSP/GAME`, and
/// whether it is a real folder (its metadata was read and it is not a
/// symbolic link).
#[derive(Debug)]
pub struct Volume {
    pub path: String,
    pub has_game_folder: bool,
    pub is_plain_folder: bool,
}

/// Volume paths are listed in text order.
impl Ranked for String {
    open spec fn view_le(a: Seq<char>, b: Seq<char>) -> bool {
        text_le(a, b)
    }

    fn comes_no_later(&self, other: &Self) -> (r: bool) {
        text_no_later(&chars_of(self.as_str()), &chars_of(other.as_str()))
    }
}

/// The paths of the volumes that are PSPs, in their order.
pub open spec fn psp_volumes(vs: Seq<Volume>) -> Seq<Seq<char>>
    decreases vs.len(),
{
    if vs.len() == 0 {
        Seq::empty()
    } else if vs.last().has_game_folder && vs.last().is_plain_folder {
        psp_volumes(vs.drop_last()).push(vs.last().path@)
    } else {
        psp_volumes(vs.drop_last())
    }
}

/// The connected PSPs: the volumes that are real folders holding
/// `PSP/GAME`, sorted by path.
pub fn connected_psp_mounts(volumes: Vec<Volume>) -> (r: Vec<String>)
    ensures
        strings_view(r@) == ranked::<String>(psp_volumes(volumes@)),
{
    let ghost orig = volumes@;
    let mut rest = volumes;
    let mut mounts: Vec<String> = Vec::new();
    let ghost mut k: int = 0;
    proof {
        assert(orig.take(0) =~= Seq::<Volume>::empty());
        assert(orig.skip(0) =~= orig);
    }
    while rest.len() > 0
        invariant
            0 <= k <= orig.len(),
            rest@ == orig.skip(k),
            strings_view(mounts@) == psp_volumes(orig.take(k)),
        decreases rest.len(),
    {
        let v = rest.remove(0);
        proof {
            assert(v == orig[k]);
            assert(orig.take(k + 1).drop_last() =~= orig.take(k));
            assert(rest@ =~= orig.skip(k + 1));
        }
        let ghost before = mounts@;
        if v.has_game_folder && v.is_plain_folder {
            mounts.push(v.path);
            proof {
                assert(strings_view(mounts@) =~= strings_view(before).push(v.path@));
            }
        }
        proof {
            k = k + 1;
        }
    }
    proof {
        assert(orig.skip(k).len() == 0);
        assert(orig.take(k) =~= orig);
    }
    let r = rank_sort(mounts);
    proof {
        assert(strings_view(r@) =~= views_of(r@));
        assert(strings_view(mounts@) =~= views_of(mounts@));
    }
    r
}

// ---------------------------------------------------------------------------
// Environment status
// ---------------------------------------------------------------------------
/// One line of the environment panel.
#[derive(Debug)]
pub struct EnvironmentCheck {
    pub id: &'static str,
    pub label: &'static str,
    pub ready: bool,
    pub required: bool,
    pub detail: String,
    pub path: Option<String>,
}

/// What the environment panel shows.
#[derive(Debug)]
pub struct EnvironmentStatus {
    pub pspdev_ready: bool,
    pub pspdev_version: Option<String>,
    pub ppsspp_ready: bool,
    pub psp_mounts: Vec<String>,
    pub checks: Vec<EnvironmentCheck>,
}

pub struct CheckView {
    pub id: Seq<char>,
    pub label: Seq<char>,
    pub ready: bool,
    pub required: bool,
    pub detail: Seq<char>,
    pub path: Option<Seq<char>>,
}

pub struct StatusView {
    pub pspdev_ready: bool,
    pub pspdev_version: Option<Seq<char>>,
    pub ppsspp_ready: bool,
    pub psp_mounts: Seq<Seq<char>>,
    pub checks: Seq<CheckView>,
}

impl View for EnvironmentCheck {
    type V = CheckView;

    open spec fn view(&self) -> CheckView {
        CheckView {
            id: self.id@,
            label: self.label@,
            ready: self.ready,
            required: self.required,
            detail: self.detail@,
            path: option_view(self.path),
        }
    }
}

impl View for EnvironmentStatus {
    type V = StatusView;

    open spec fn view(&self) -> StatusView {
        StatusView {
            pspdev_ready: self.pspdev_ready,
            pspdev_version: option_view(self.pspdev_version),
            ppsspp_ready: self.ppsspp_ready,
            psp_mounts: strings_view(self.psp_mounts@),
            checks: self.checks@.map_values(|c: EnvironmentCheck| c@),
        }
    }
}

pub const MAKE_PATH: &'static str = "/usr/bin/make";

pub const PSPDEV_VERSION: &'static str = "v20260701 / GCC 15.2.0";

pub const PSPDEV_READY: &'static str = "Toolchain gérée v20260701 · GCC 15.2.0";

pub const PSPDEV_MISSING: &'static str = "psp-g++ ou psp-config est absent";

pub const MAKE_READY: &'static str = "Make système disponible";

pub const MAKE_MISSING: &'static str = "Make est requis pour les projets C++";

pub const PPSSPP_READY: &'static str = "Émulateur prêt pour les tests";

pub const PPSSPP_MISSING: &'static str = "Émulateur non détecté dans Applications";

pub const NO_PSP: &'static str = "Aucun volume contenant PSP/GAME";

pub const ONE_PSP: &'static str = "Une PSP prête pour le déploiement";

/// What the PSP line says of `n` connected PSPs.
pub open spec fn psp_detail(n: nat) -> Seq<char> {
    if n == 0 {
        NO_PSP@
    } else if n == 1 {
        ONE_PSP@
    } else {
        decimal(n) + " volumes PSP détectés"@
    }
}

/// The environment panel, from what was found: the managed toolchain at
/// `pspdev` (ready when its compiler and `psp-config` are files), `make`,
/// the emulator, and the connected PSPs.
pub open spec fn environment_of(
    pspdev: Seq<char>,
    pspdev_ready: bool,
    make_ready: bool,
    ppsspp: Option<Seq<char>>,
    mounts: Seq<Seq<char>>,
) -> StatusView {
    StatusView {
        pspdev_ready,
        pspdev_version: if pspdev_ready {
            Some(PSPDEV_VERSION@)
        } else {
            None
        },
        ppsspp_ready: ppsspp is Some,
        psp_mounts: mounts,
        checks: seq![
            CheckView {
                id: "pspdev"@,
                label: "PSPDEV"@,
                ready: pspdev_ready,
                required: true,
                detail: if pspdev_ready {
                    PSPDEV_READY@
                } else {
                    PSPDEV_MISSING@
                },
                path: Some(pspdev),
            },
            CheckView {
                id: "make"@,
                label: "Moteur de build"@,
                ready: make_ready,
                required: true,
                detail: if make_ready {
                    MAKE_READY@
                } else {
                    MAKE_MISSING@
                },
                path: Some(MAKE_PATH@),
            },
            CheckView {
                id: "ppsspp"@,
                label: "PPSSPP"@,
                ready: ppsspp is Some,
                required: false,
                detail: if ppsspp is Some {
                    PPSSPP_READY@
                } else {
                    PPSSPP_MISSING@
                },
                path: ppsspp,
            },
            CheckView {
                id: "psp"@,
                label: "PSP USB"@,
                ready: mounts.len() > 0,
                required: false,
                detail: psp_detail(mounts.len()),
                path: if mounts.len() > 0 {
                    Some(mounts[0])
                } else {
                    None
                },
            },
        ],
    }
}

fn psp_detail_of(n: usize) -> (r: String)
    ensures
        r@ == psp_detail(n as nat),
{
    if n == 0 {
        owned(NO_PSP)
    } else if n == 1 {
        owned(ONE_PSP)
    } else {
        let mut r = String::new();
        push_decimal(&mut r, n);
        r.append(" volumes PSP détectés");
        r
    }
}

fn copy_option(o: &Option<String>) -> (r: Option<String>)
    ensures
        option_view(r) == option_view(*o),
{
    match o {
        Some(s) => Some(s.clone()),
        None => None,
    }
}

/// The environment panel, from what was found on the machine: whether the
/// managed toolchain at `pspdev` has its compiler and `psp-config`, whether
/// `make` is there, the emulator, and the connected PSPs.
pub fn environment_status(
    pspdev: &str,
    compiler_found: bool,
    config_found: bool,
    make_ready: bool,
    ppsspp: Option<String>,
    psp_mounts: Vec<String>,
) -> (r: EnvironmentStatus)
    ensures
        r@ == environment_of(
            pspdev@,
            compiler_found && config_found,
            make_ready,
            option_view(ppsspp),
            strings_view(psp_mounts@),
        ),
{
    let pspdev_ready = compiler_found && config_found;
    let ppsspp_ready = ppsspp.is_some();
    let first_mount = if psp_mounts.len() > 0 {
        Some(psp_mounts[0].clone())
    } else {
        None
    };
    let mut checks: Vec<EnvironmentCheck> = Vec::new();
    checks.push(
        EnvironmentCheck {
            id: "pspdev",
            label: "PSPDEV",
            ready: pspdev_ready,
            required: true,
            detail: if pspdev_ready {
                owned(PSPDEV_READY)
            } else {
                owned(PSPDEV_MISSING)
            },
            path: Some(owned(pspdev)),
        },
    );
    checks.push(
        EnvironmentCheck {
            id: "make",
            label: "Moteur de build",
            ready: make_ready,
            required: true,
            detail: if make_ready {
                owned(MAKE_READY)
            } else {
                owned(MAKE_MISSING)
            },
            path: Some(owned(MAKE_PATH)),
        },
    );
    checks.push(
        EnvironmentCheck {
            id: "ppsspp",
            label: "PPSSPP",
            ready: ppsspp_ready,
            required: false,
            detail: if ppsspp_ready {
                owned(PPSSPP_READY)
            } else {
                owned(PPSSPP_MISSING)
            },
            path: copy_option(&ppsspp),
        },
    );
    checks.push(
        EnvironmentCheck {
            id: "psp",
            label: "PSP USB",
            ready: psp_mounts.len() > 0,
            required: false,
            detail: psp_detail_of(psp_mounts.len()),
            path: first_mount,
        },
    );
    let r = EnvironmentStatus {
        pspdev_ready,
        pspdev_version: if pspdev_ready {
            Some(owned(PSPDEV_VERSION))
        } else {
            None
        },
        ppsspp_ready,
        psp_mounts,
        checks,
    };
    proof {
        assert(r@.checks =~= environment_of(
            pspdev@,
            compiler_found && config_found,
            make_ready,
            option_view(ppsspp),
            strings_view(r.psp_mounts@),
        ).checks);
    }
    r
}

/// Texts are ordered by a total order.
pub proof fn lemma_text_order()
    ensures
        total_order::<String>(),
{
    assert forall|a: Seq<char>, b: Seq<char>| String::view_le(a, b) || String::view_le(b, a) by {
        lemma_text_le_total(a, b);
    }
    assert forall|a: Seq<char>, b: Seq<char>, c: Seq<char>|
        String::view_le(a, b) && String::view_le(b, c) implies String::view_le(a, c) by {
        lemma_text_le_transitive(a, b, c);
    }
}

/// Whether `path` is the path of a volume of `vs` that is a real folder
/// holding `PSP/GAME`.
pub open spec fn is_psp_of(vs: Seq<Volume>, path: Seq<char>) -> bool {
    exists|j: int|
        0 <= j < vs.len() && #[trigger] vs[j].path@ == path && vs[j].has_game_folder
            && vs[j].is_plain_folder
}

/// The connected PSPs are listed in text order, and each is a volume that
/// is a real folder holding `PSP/GAME`.
pub proof fn lemma_mounts_are_psps(vs: Seq<Volume>)
    ensures
        is_ranked::<String>(ranked::<String>(psp_volumes(vs))),
        forall|i: int|
            0 <= i < ranked::<String>(psp_volumes(vs)).len() ==> is_psp_of(
                vs,
                #[trigger] ranked::<String>(psp_volumes(vs))[i],
            ),
{
    lemma_text_order();
    lemma_ranked_sorted::<String>(psp_volumes(vs));
    lemma_ranked_sorted_members::<String>(psp_volumes(vs));
    lemma_volumes_kept(vs);
    let r = ranked::<String>(psp_volumes(vs));
    let l = psp_volumes(vs);
    assert forall|i: int| 0 <= i < r.len() implies is_psp_of(vs, #[trigger] r[i]) by {
        assert(l.contains(r[i]));
        let k = choose|k: int| 0 <= k < l.len() && l[k] == r[i];
        assert(is_psp_of(vs, l[k]));
    }
}

proof fn lemma_volumes_kept(vs: Seq<Volume>)
    ensures
        forall|k: int|
            0 <= k < psp_volumes(vs).len() ==> is_psp_of(vs, #[trigger] psp_volumes(vs)[k]),
    decreases vs.len(),
{
    if vs.len() > 0 {
        let d = vs.drop_last();
        lemma_volumes_kept(d);
        let l = psp_volumes(vs);
        assert forall|k: int| 0 <= k < l.len() implies is_psp_of(vs, #[trigger] l[k]) by {
            if k < psp_volumes(d).len() {
                assert(is_psp_of(d, psp_volumes(d)[k]));
                let j = choose|j: int|
                    0 <= j < d.len() && #[trigger] d[j].path@ == psp_volumes(d)[k]
                        && d[j].has_game_folder && d[j].is_plain_folder;
                assert(vs[j] == d[j]);
            } else {
                assert(vs[vs.len() - 1].path@ == l[k]);
            }
        }
    }
}

/// The connected PSPs are listed in the order of their paths as strings:
/// a path comes before every longer path it begins, and otherwise the one
/// with the smaller character where they first differ comes first.
pub proof fn lemma_mounts_in_path_order(vs: Seq<Volume>)
    ensures
        forall|i: int, j: int|
            0 <= i < j < ranked::<String>(psp_volumes(vs)).len() ==> crate::order::comes_first_in_text(
                #[trigger] ranked::<String>(psp_volumes(vs))[i],
                #[trigger] ranked::<String>(psp_volumes(vs))[j],
            ),
{
    lemma_mounts_are_psps(vs);
    let r = ranked::<String>(psp_volumes(vs));
    assert forall|i: int, j: int| 0 <= i < j < r.len() implies crate::order::comes_first_in_text(
        #[trigger] r[i],
        #[trigger] r[j],
    ) by {
        assert(String::view_le(r[i], r[j]));
        crate::order::lemma_text_le_is_string_order(r[i], r[j]);
    }
}

} // verus!
