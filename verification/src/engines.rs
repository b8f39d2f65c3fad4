//! The engine scan's decision logic: which directories to skip, what counts
//! as an engine root, how a version is read out of a directory name, and how
//! an install is labelled. The application walks the file system and feeds
//! what it finds through these functions.
use vstd::prelude::*;
use vstd::string::{StrSliceExecFns, StringExecFns};
use crate::supervisor::opt_view;
use crate::text::{lower_of, lowercase};

verus! {

/// One detected engine install.
#[derive(Debug, Clone)]
pub struct EngineInstall {
    pub id: String,
    pub name: String,
    pub path: String,
    pub version: Option<String>,
}

/// The directory names (compared lowercased) that the scan passes over:
/// launcher and redistributable directories that are no engine install.
pub open spec fn spec_should_skip(lower: Seq<char>) -> bool {
    ||| lower == "launcher"@
    ||| lower == "epicgameslauncher"@
    ||| lower == "epic games launcher"@
    ||| lower == "epic online services"@
    ||| lower == "directxredist"@
    ||| lower == "vcredist"@
}

/// Whether a directory of this name is skipped by the engine scan.
pub fn should_skip_directory(name: &str) -> (r: bool)
    ensures
        r == spec_should_skip(lower_of(name@)),
{
    let lower = lowercase(name);
    let r = lower == String::from_str("launcher") || lower == String::from_str(
        "epicgameslauncher",
    ) || lower == String::from_str("epic games launcher") || lower == String::from_str(
        "epic online services",
    ) || lower == String::from_str("directxredist") || lower == String::from_str("vcredist");
    r
}

/// The decision rule for an engine root: the candidate directory holds an
/// `Engine` directory which in turn holds `Binaries` or `Build`. The caller
/// probes the file system and passes what it saw.
pub fn is_engine_root(has_engine_dir: bool, has_binaries_dir: bool, has_build_dir: bool) -> (r:
    bool)
    ensures
        r == (has_engine_dir && (has_binaries_dir || has_build_dir)),
{
    has_engine_dir && (has_binaries_dir || has_build_dir)
}

/// The display label of an install: the version when one is known, else the
/// directory name in parentheses, else the bare product name.
pub open spec fn spec_label(name: Seq<char>, version: Option<Seq<char>>) -> Seq<char> {
    match version {
        Some(v) => "Unreal Engine "@ + v,
        None => if name.len() > 0 {
            "Unreal Engine ("@ + name + ")"@
        } else {
            "Unreal Engine"@
        },
    }
}

pub fn format_label(name: &str, version: &Option<String>) -> (r: String)
    ensures
        r@ == spec_label(name@, opt_view(*version)),
{
    match version {
        Some(v) => String::from_str("Unreal Engine ").concat(v.as_str()),
        None => {
            if !name.is_empty() {
                let r = String::from_str("Unreal Engine (").concat(name).concat(
                    String::from_str(")").as_str(),
                );
                proof {
                    assert(r@ =~= spec_label(name@, opt_view(*version)));
                }
                r
            } else {
                String::from_str("Unreal Engine")
            }
        },
    }
}

pub open spec fn is_digit(c: char) -> bool {
    48 <= c as int && c as int <= 57
}

/// A version marker: `UE` in either case, then `_` or `-`, then a digit.
pub open spec fn ue_marker_at(s: Seq<char>, i: int) -> bool {
    &&& 0 <= i
    &&& i + 3 < s.len()
    &&& (s[i] == 'U' || s[i] == 'u')
    &&& (s[i + 1] == 'E' || s[i + 1] == 'e')
    &&& (s[i + 2] == '_' || s[i + 2] == '-')
    &&& is_digit(s[i + 3])
}

/// The position of the first version marker at index `>= i`, if any.
pub open spec fn spec_first_ue_from(s: Seq<char>, i: int) -> Option<int>
    decreases s.len() - i,
{
    if i >= s.len() {
        None
    } else if ue_marker_at(s, i) {
        Some(i)
    } else {
        spec_first_ue_from(s, i + 1)
    }
}

/// The position of the first digit at index `>= i`, if any.
pub open spec fn spec_first_digit_from(s: Seq<char>, i: int) -> Option<int>
    decreases s.len() - i,
{
    if i >= s.len() {
        None
    } else if is_digit(s[i]) {
        Some(i)
    } else {
        spec_first_digit_from(s, i + 1)
    }
}

/// The end of the run of digits that starts at `i`.
pub open spec fn spec_digits_end(s: Seq<char>, i: int) -> int
    decreases s.len() - i,
{
    if i < s.len() && is_digit(s[i]) {
        spec_digits_end(s, i + 1)
    } else {
        i
    }
}

/// The end of a dotted version read greedily from `i`: a run of digits,
/// extended across each `.` that is followed by another digit.
pub open spec fn spec_version_end(s: Seq<char>, i: int) -> int
    decreases s.len() - i,
{
    let j = spec_digits_end(s, i);
    if j + 1 < s.len() && s[j] == '.' && is_digit(s[j + 1]) && j + 1 > i {
        spec_version_end(s, j + 1)
    } else {
        j
    }
}

/// The version text read out of a directory name: the dotted number after
/// the first `UE_`/`UE-` marker when there is one, else the first dotted
/// number anywhere in the name, else nothing.
pub open spec fn spec_parse_version(s: Seq<char>) -> Option<Seq<char>> {
    match spec_first_ue_from(s, 0) {
        Some(i) => Some(s.subrange(i + 3, spec_version_end(s, i + 3))),
        None => match spec_first_digit_from(s, 0) {
            Some(i) => Some(s.subrange(i, spec_version_end(s, i))),
            None => None,
        },
    }
}

fn is_digit_at(name: &str, i: usize) -> (r: bool)
    requires
        i < name@.len(),
    ensures
        r == is_digit(name@[i as int]),
{
    let c = name.get_char(i);
    let u = c as u32;
    48 <= u && u <= 57
}

fn first_ue(name: &str, n: usize, i: usize) -> (r: Option<usize>)
    requires
        n == name@.len(),
        i <= n,
    ensures
        match r {
            Some(k) => k < n && Some(k as int) == spec_first_ue_from(name@, i as int)
                && ue_marker_at(name@, k as int),
            None => spec_first_ue_from(name@, i as int) is None,
        },
    decreases n - i,
{
    if i >= n {
        None
    } else {
        let marker = n - i > 3 && {
            let c0 = name.get_char(i);
            let c1 = name.get_char(i + 1);
            let c2 = name.get_char(i + 2);
            (c0 == 'U' || c0 == 'u') && (c1 == 'E' || c1 == 'e') && (c2 == '_' || c2 == '-')
                && is_digit_at(name, i + 3)
        };
        if marker {
            Some(i)
        } else {
            first_ue(name, n, i + 1)
        }
    }
}

fn first_digit(name: &str, n: usize, i: usize) -> (r: Option<usize>)
    requires
        n == name@.len(),
        i <= n,
    ensures
        match r {
            Some(k) => k < n && Some(k as int) == spec_first_digit_from(name@, i as int)
                && is_digit(name@[k as int]),
            None => spec_first_digit_from(name@, i as int) is None,
        },
    decreases n - i,
{
    if i >= n {
        None
    } else if is_digit_at(name, i) {
        Some(i)
    } else {
        first_digit(name, n, i + 1)
    }
}

fn digits_end(name: &str, n: usize, i: usize) -> (j: usize)
    requires
        n == name@.len(),
        i <= n,
    ensures
        j as int == spec_digits_end(name@, i as int),
        i <= j <= n,
    decreases n - i,
{
    if i < n && is_digit_at(name, i) {
        digits_end(name, n, i + 1)
    } else {
        i
    }
}

fn version_end(name: &str, n: usize, i: usize) -> (j: usize)
    requires
        n == name@.len(),
        i <= n,
    ensures
        j as int == spec_version_end(name@, i as int),
        i <= j <= n,
    decreases n - i,
{
    let j = digits_end(name, n, i);
    if j < n && name.get_char(j) == '.' && j + 1 < n && is_digit_at(name, j + 1) && j + 1 > i {
        version_end(name, n, j + 1)
    } else {
        j
    }
}

/// The version the scan settles on: what the caller already knows, else what
/// the directory name yields.
pub open spec fn spec_chosen_version(hint: Option<Seq<char>>, dir_name: Seq<char>) -> Option<
    Seq<char>,
> {
    match hint {
        Some(v) => Some(v),
        None => spec_parse_version(dir_name),
    }
}

/// Some already-collected install occupies this path.
pub open spec fn spec_has_path(installs: Seq<EngineInstall>, path: Seq<char>) -> bool {
    exists|i: int| 0 <= i < installs.len() && installs[i].id@ == path
}

/// One step of the engine scan: decide whether the directory at `path` joins
/// the collected installs, and append it when it does. `dir_name` is the
/// directory's own name (held against the skip list and mined for a
/// version), `display_name` is the name shown in the label, `version_hint`
/// is a version the caller already knows from launcher metadata, and
/// `engine_root` is what the caller's directory probe saw. A skipped name, a
/// path already collected, or a non-root leaves the list untouched.
pub fn add_candidate(
    installs: &mut Vec<EngineInstall>,
    path: String,
    dir_name: &str,
    display_name: &str,
    version_hint: Option<String>,
    engine_root: bool,
) -> (added: bool)
    ensures
        added == (!spec_should_skip(lower_of(dir_name@)) && !spec_has_path(old(installs)@, path@)
            && engine_root),
        !added ==> final(installs)@ == old(installs)@,
        added ==> ({
            let ver = spec_chosen_version(opt_view(version_hint), dir_name@);
            &&& final(installs)@.len() == old(installs)@.len() + 1
            &&& final(installs)@.subrange(0, old(installs)@.len() as int) == old(installs)@
            &&& ({
                let rec = final(installs)@.last();
                &&& rec.id@ == path@
                &&& rec.path@ == path@
                &&& opt_view(rec.version) == ver
                &&& rec.name@ == spec_label(display_name@, ver)
            })
        }),
{
    if should_skip_directory(dir_name) {
        return false;
    }
    let mut i: usize = 0;
    while i < installs.len()
        invariant
            i <= installs@.len(),
            forall|j: int| 0 <= j < i ==> installs@[j].id@ != path@,
        decreases installs@.len() - i,
    {
        if installs[i].id == path {
            return false;
        }
        i = i + 1;
    }
    if !engine_root {
        return false;
    }
    let version = match version_hint {
        Some(v) => Some(v),
        None => parse_version_from_name(dir_name),
    };
    let label = format_label(display_name, &version);
    let rec = EngineInstall { id: path.clone(), name: label, path, version };
    installs.push(rec);
    proof {
        assert(final(installs)@.subrange(0, old(installs)@.len() as int) =~= old(installs)@);
    }
    true
}

/// The end of the `.`-separated segment that starts at `i`.
pub open spec fn spec_seg_end(s: Seq<char>, i: int) -> int
    decreases s.len() - i,
{
    if i < s.len() && s[i] != '.' {
        spec_seg_end(s, i + 1)
    } else {
        i
    }
}

proof fn lemma_seg_end_bounds(s: Seq<char>, i: int)
    ensures
        i <= spec_seg_end(s, i),
        i <= s.len() ==> spec_seg_end(s, i) <= s.len(),
    decreases s.len() - i,
{
    if i < s.len() && s[i] != '.' {
        lemma_seg_end_bounds(s, i + 1);
    }
}

pub open spec fn all_digits(s: Seq<char>) -> bool {
    forall|i: int| 0 <= i < s.len() ==> is_digit(#[trigger] s[i])
}

/// The number that a sequence of decimal digits denotes.
pub open spec fn digits_value(s: Seq<char>) -> int
    decreases s.len(),
{
    if s.len() == 0 {
        0
    } else {
        digits_value(s.drop_last()) * 10 + (s.last() as int - 48)
    }
}

/// What `str::parse::<u32>` makes of one segment: an optional `+`, then at
/// least one digit, denoting a value that fits.
pub open spec fn spec_parse_u32(seg: Seq<char>) -> Option<int> {
    let body = if seg.len() > 0 && seg[0] == '+' {
        seg.subrange(1, seg.len() as int)
    } else {
        seg
    };
    if body.len() > 0 && all_digits(body) && digits_value(body) <= u32::MAX {
        Some(digits_value(body))
    } else {
        None
    }
}

/// The numeric parts of a dotted version text, read from index `i` on:
/// segments that do not parse are passed over, as the scan's comparison
/// does.
pub open spec fn spec_version_parts_from(s: Seq<char>, i: int) -> Seq<int>
    decreases s.len() - i,
    via spec_version_parts_from_dec
{
    let e = spec_seg_end(s, i);
    let head = match spec_parse_u32(s.subrange(i, e)) {
        Some(v) => seq![v],
        None => Seq::<int>::empty(),
    };
    if e >= s.len() {
        head
    } else {
        head + spec_version_parts_from(s, e + 1)
    }
}

#[via_fn]
proof fn spec_version_parts_from_dec(s: Seq<char>, i: int) {
    lemma_seg_end_bounds(s, i);
}

pub open spec fn spec_version_parts(s: Seq<char>) -> Seq<int> {
    spec_version_parts_from(s, 0)
}

proof fn lemma_digits_value_nonneg(s: Seq<char>)
    requires
        all_digits(s),
    ensures
        digits_value(s) >= 0,
    decreases s.len(),
{
    if s.len() > 0 {
        assert(all_digits(s.drop_last()));
        lemma_digits_value_nonneg(s.drop_last());
    }
}

/// Reading more digits never shrinks the value.
proof fn lemma_digits_value_prefix_le(s: Seq<char>, k: int)
    requires
        all_digits(s),
        0 <= k <= s.len(),
    ensures
        digits_value(s.subrange(0, k)) <= digits_value(s),
    decreases s.len() - k,
{
    if k == s.len() {
        assert(s.subrange(0, k) =~= s);
    } else {
        lemma_digits_value_prefix_le(s, k + 1);
        let shorter = s.subrange(0, k);
        let longer = s.subrange(0, k + 1);
        assert(longer.drop_last() =~= shorter);
        assert(all_digits(shorter));
        lemma_digits_value_nonneg(shorter);
        assert(digits_value(longer) == digits_value(shorter) * 10 + (longer.last() as int - 48));
    }
}

fn seg_end(v: &str, n: usize, i: usize) -> (e: usize)
    requires
        n == v@.len(),
        i <= n,
    ensures
        e as int == spec_seg_end(v@, i as int),
        i <= e <= n,
    decreases n - i,
{
    if i < n && v.get_char(i) != '.' {
        seg_end(v, n, i + 1)
    } else {
        i
    }
}

#[verifier::loop_isolation(false)]
fn parse_u32_seg(v: &str, n: usize, i: usize, e: usize) -> (r: Option<u32>)
    requires
        n == v@.len(),
        i <= e <= n,
    ensures
        match r {
            Some(x) => Some(x as int) == spec_parse_u32(v@.subrange(i as int, e as int)),
            None => spec_parse_u32(v@.subrange(i as int, e as int)) is None,
        },
{
    let ghost seg = v@.subrange(i as int, e as int);
    let start = if i < e && v.get_char(i) == '+' {
        i + 1
    } else {
        i
    };
    let ghost body = v@.subrange(start as int, e as int);
    proof {
        if i < e && v@[i as int] == '+' {
            assert(seg.subrange(1, seg.len() as int) =~= body);
        } else {
            assert(seg =~= body);
        }
    }
    if start == e {
        return None;
    }
    let mut acc: u64 = 0;
    let mut j: usize = start;
    while j < e
        invariant
            start <= j <= e <= n,
            n == v@.len(),
            body == v@.subrange(start as int, e as int),
            start < e,
            all_digits(v@.subrange(start as int, j as int)),
            acc as int == digits_value(v@.subrange(start as int, j as int)),
            acc <= u32::MAX,
        decreases e - j,
    {
        let c = v.get_char(j);
        let u = c as u32;
        let ghost pre = v@.subrange(start as int, j as int);
        let ghost cur = v@.subrange(start as int, j + 1);
        proof {
            assert(cur.drop_last() =~= pre);
        }
        if u < 48 || u > 57 {
            proof {
                assert(!is_digit(body[j - start as int]));
            }
            return None;
        }
        let next: u64 = acc * 10 + ((u - 48) as u64);
        proof {
            assert(all_digits(cur));
            assert(next as int == digits_value(cur));
        }
        if next > 0xffff_ffff {
            proof {
                if all_digits(body) && digits_value(body) <= u32::MAX {
                    assert(body.subrange(0, j + 1 - start as int) =~= cur);
                    lemma_digits_value_prefix_le(body, j + 1 - start as int);
                }
            }
            return None;
        }
        acc = next;
        j = j + 1;
    }
    proof {
        assert(v@.subrange(start as int, j as int) =~= body);
    }
    Some(acc as u32)
}

fn parts_from(v: &str, n: usize, i: usize, out: &mut Vec<u32>)
    requires
        n == v@.len(),
        i <= n,
    ensures
        final(out)@.map_values(|x: u32| x as int) == old(out)@.map_values(|x: u32| x as int)
            + spec_version_parts_from(v@, i as int),
    decreases n - i,
{
    let e = seg_end(v, n, i);
    match parse_u32_seg(v, n, i, e) {
        Some(x) => {
            let ghost before = out@;
            out.push(x);
            proof {
                assert(out@.map_values(|y: u32| y as int) =~= before.map_values(
                    |y: u32| y as int,
                ).push(x as int));
            }
        },
        None => {},
    }
    if e < n {
        parts_from(v, n, e + 1, out);
    }
    proof {
        assert(final(out)@.map_values(|x: u32| x as int) =~= old(out)@.map_values(
            |x: u32| x as int,
        ) + spec_version_parts_from(v@, i as int));
    }
}

/// The numeric parts of a version text, as the scan's ordering reads them.
pub fn version_parts(v: &str) -> (r: Vec<u32>)
    ensures
        r@.map_values(|x: u32| x as int) == spec_version_parts(v@),
{
    let n = v.unicode_len();
    let mut out: Vec<u32> = Vec::new();
    parts_from(v, n, 0, &mut out);
    proof {
        assert(out@.map_values(|x: u32| x as int) =~= spec_version_parts(v@));
    }
    out
}

/// Lexicographic order on numeric parts, as the part vectors' standard
/// ordering compares them: elementwise, with a run-out prefix first.
pub open spec fn lex_le(a: Seq<int>, b: Seq<int>) -> bool
    decreases a.len(),
{
    if a.len() == 0 {
        true
    } else if b.len() == 0 {
        false
    } else if a.first() < b.first() {
        true
    } else if a.first() > b.first() {
        false
    } else {
        lex_le(a.drop_first(), b.drop_first())
    }
}

/// Any two part sequences compare one way or the other.
pub proof fn lemma_lex_le_total(a: Seq<int>, b: Seq<int>)
    ensures
        lex_le(a, b) || lex_le(b, a),
    decreases a.len(),
{
    if a.len() > 0 && b.len() > 0 && a.first() == b.first() {
        lemma_lex_le_total(a.drop_first(), b.drop_first());
    }
}

pub proof fn lemma_lex_le_trans(a: Seq<int>, b: Seq<int>, c: Seq<int>)
    requires
        lex_le(a, b),
        lex_le(b, c),
    ensures
        lex_le(a, c),
    decreases a.len(),
{
    if a.len() > 0 && b.len() > 0 && c.len() > 0 && a.first() == b.first() && b.first()
        == c.first() {
        lemma_lex_le_trans(a.drop_first(), b.drop_first(), c.drop_first());
    }
}

/// The scan's display order: installs with no version ahead, then newer
/// versions before older, comparing the numeric parts of the version texts.
pub open spec fn install_le(x: EngineInstall, y: EngineInstall) -> bool {
    match (x.version, y.version) {
        (None, _) => true,
        (Some(_), None) => false,
        (Some(xv), Some(yv)) => lex_le(spec_version_parts(yv@), spec_version_parts(xv@)),
    }
}

pub proof fn lemma_install_le_total(x: EngineInstall, y: EngineInstall)
    ensures
        install_le(x, y) || install_le(y, x),
{
    match (x.version, y.version) {
        (Some(xv), Some(yv)) => {
            lemma_lex_le_total(spec_version_parts(yv@), spec_version_parts(xv@));
        },
        _ => {},
    }
}

pub proof fn lemma_install_le_trans(x: EngineInstall, y: EngineInstall, z: EngineInstall)
    requires
        install_le(x, y),
        install_le(y, z),
    ensures
        install_le(x, z),
{
    match (x.version, y.version, z.version) {
        (Some(xv), Some(yv), Some(zv)) => {
            lemma_lex_le_trans(
                spec_version_parts(zv@),
                spec_version_parts(yv@),
                spec_version_parts(xv@),
            );
        },
        _ => {},
    }
}

fn parts_le_from(a: &Vec<u32>, b: &Vec<u32>, i: usize) -> (r: bool)
    requires
        i <= a@.len(),
        i <= b@.len(),
    ensures
        r == lex_le(
            a@.map_values(|x: u32| x as int).skip(i as int),
            b@.map_values(|x: u32| x as int).skip(i as int),
        ),
    decreases a@.len() - i,
{
    let ghost am = a@.map_values(|x: u32| x as int).skip(i as int);
    let ghost bm = b@.map_values(|x: u32| x as int).skip(i as int);
    if i == a.len() {
        true
    } else if i == b.len() {
        false
    } else if a[i] < b[i] {
        true
    } else if a[i] > b[i] {
        false
    } else {
        proof {
            assert(am.drop_first() =~= a@.map_values(|x: u32| x as int).skip(i + 1));
            assert(bm.drop_first() =~= b@.map_values(|x: u32| x as int).skip(i + 1));
        }
        parts_le_from(a, b, i + 1)
    }
}

/// Whether install `x` sorts at or before install `y`.
fn install_le_exec(x: &EngineInstall, y: &EngineInstall) -> (r: bool)
    ensures
        r == install_le(*x, *y),
{
    match (&x.version, &y.version) {
        (None, _) => true,
        (Some(_), None) => false,
        (Some(xv), Some(yv)) => {
            let xp = version_parts(xv.as_str());
            let yp = version_parts(yv.as_str());
            let r = parts_le_from(&yp, &xp, 0);
            proof {
                assert(yp@.map_values(|t: u32| t as int).skip(0) =~= spec_version_parts(yv@));
                assert(xp@.map_values(|t: u32| t as int).skip(0) =~= spec_version_parts(xv@));
            }
            r
        },
    }
}

/// Sort the collected installs into display order. What comes out is a
/// reordering of what went in, sorted by `install_le`.
pub fn sort_installs(installs: &mut Vec<EngineInstall>)
    ensures
        final(installs)@.to_multiset() == old(installs)@.to_multiset(),
        final(installs)@.len() == old(installs)@.len(),
        forall|p: int, q: int|
            0 <= p <= q < final(installs)@.len() ==> install_le(
                #[trigger] final(installs)@[p],
                #[trigger] final(installs)@[q],
            ),
{
    let ghost orig = installs@;
    proof {
        if installs@.len() > 0 {
            lemma_install_le_total(installs@[0], installs@[0]);
        }
    }
    let mut k: usize = 1;
    while k < installs.len()
        invariant
            1 <= k,
            installs@.len() == orig.len(),
            installs@.to_multiset() == orig.to_multiset(),
            forall|p: int, q: int|
                0 <= p <= q < k && q < installs@.len() ==> install_le(
                    #[trigger] installs@[p],
                    #[trigger] installs@[q],
                ),
        decreases installs@.len() - k,
    {
        let mut j: usize = k;
        while j > 0 && !install_le_exec(&installs[j - 1], &installs[j])
            invariant
                j <= k < installs@.len(),
                installs@.len() == orig.len(),
                installs@.to_multiset() == orig.to_multiset(),
                forall|p: int, q: int|
                    0 <= p <= q <= k && p != j && q != j ==> install_le(
                        #[trigger] installs@[p],
                        #[trigger] installs@[q],
                    ),
                forall|q: int|
                    j < q <= k ==> install_le(installs@[j as int], #[trigger] installs@[q]),
            decreases j,
        {
            let ghost pre = installs@;
            let moved = installs.remove(j - 1);
            installs.insert(j, moved);
            j = j - 1;
            proof {
                broadcast use vstd::seq_lib::group_to_multiset_ensures;
                broadcast use vstd::multiset::group_multiset_axioms;

                assert(installs@ =~= pre.update(j as int, pre[j + 1]).update(
                    j + 1,
                    pre[j as int],
                ));
                assert(pre.contains(pre[j as int]));
                assert(installs@.to_multiset() =~= pre.to_multiset());
                lemma_install_le_total(pre[j as int], pre[j + 1]);
                assert(install_le(pre[j + 1], pre[j as int]));
                assert forall|p: int, q: int|
                    0 <= p <= q <= k && p != j && q != j implies install_le(
                    installs@[p],
                    installs@[q],
                ) by {
                    if p == q {
                        lemma_install_le_total(installs@[p], installs@[q]);
                    } else if q == j + 1 {
                        // p < j: against the element that just stepped aside
                        assert(installs@[q] == pre[j as int]);
                        assert(installs@[p] == pre[p]);
                        assert(install_le(pre[p], pre[j as int]));
                    } else if p == j + 1 {
                        assert(installs@[p] == pre[j as int]);
                        assert(installs@[q] == pre[q]);
                        assert(install_le(pre[j as int], pre[q]));
                    } else {
                        assert(installs@[p] == pre[p] && installs@[q] == pre[q]);
                        assert(install_le(pre[p], pre[q]));
                    }
                }
                assert forall|q: int|
                    j < q <= k implies install_le(installs@[j as int], #[trigger] installs@[q]) by {
                    assert(installs@[j as int] == pre[j + 1]);
                    if q == j + 1 {
                        assert(installs@[q] == pre[j as int]);
                    } else {
                        assert(installs@[q] == pre[q]);
                        assert(install_le(pre[j + 1], pre[q]));
                    }
                }
            }
        }
        proof {
            let vs = installs@;
            assert forall|p: int, q: int| 0 <= p <= q <= k implies install_le(
                #[trigger] vs[p],
                #[trigger] vs[q],
            ) by {
                lemma_install_le_total(vs[p], vs[q]);
                if p < q && q == j {
                    // p < j, so the loop left because vs[j - 1] sorts before vs[j]
                    assert(install_le(vs[j - 1], vs[j as int]));
                    if p < j - 1 {
                        assert(install_le(vs[p], vs[j - 1]));
                        lemma_install_le_trans(vs[p], vs[j - 1], vs[j as int]);
                    }
                }
            }
        }
        k = k + 1;
    }
    proof {
        assert forall|p: int, q: int|
            0 <= p <= q < installs@.len() implies install_le(
            #[trigger] installs@[p],
            #[trigger] installs@[q],
        ) by {
            lemma_install_le_total(installs@[p], installs@[q]);
        }
    }
}

/// Read a version out of a directory name, as the engine scan does.
pub fn parse_version_from_name(name: &str) -> (r: Option<String>)
    ensures
        opt_view(r) == spec_parse_version(name@),
{
    let n = name.unicode_len();
    match first_ue(name, n, 0) {
        Some(i) => {
            let e = version_end(name, n, i + 3);
            Some(name.substring_char(i + 3, e).to_owned())
        },
        None => match first_digit(name, n, 0) {
            Some(i) => {
                let e = version_end(name, n, i);
                Some(name.substring_char(i, e).to_owned())
            },
            None => None,
        },
    }
}

} // verus!
