//! Exact engine releases and the checks that judge isolated consumer graphs.
use vstd::prelude::*;
use crate::text::{
    chars_equal, chars_of, contains, contains_exec, lemma_pieces_concat, lemma_pieces_single,
    occurs_at_exec, pieces, push_chars, push_str, split_chars, str_equal,
};

verus! {

pub open spec fn is_ascii_digit(c: char) -> bool {
    '0' <= c && c <= '9'
}

pub open spec fn all_digits(s: Seq<char>) -> bool {
    forall|i: int| 0 <= i < s.len() ==> is_ascii_digit(#[trigger] s[i])
}

/// The number a string of decimal digits denotes.
pub open spec fn decimal_value(s: Seq<char>) -> nat
    decreases s.len(),
{
    if s.len() == 0 {
        0
    } else {
        decimal_value(s.drop_last()) * 10 + ((s.last() as nat) - ('0' as nat)) as nat
    }
}

/// `s` parses as a `u32`: nonempty, only ASCII digits, and in range.
pub open spec fn is_u32_text(s: Seq<char>) -> bool {
    &&& s.len() > 0
    &&& all_digits(s)
    &&& decimal_value(s) <= u32::MAX
}

/// The value of a run of ASCII digits, if it is one and fits in a `u32`.
pub fn parse_u32_digits(s: &[char]) -> (r: Option<u32>)
    ensures
        r is Some <==> is_u32_text(s@),
        r matches Some(v) ==> v == decimal_value(s@),
{
    if s.len() == 0 {
        return None;
    }
    let mut value: u64 = 0;
    let mut overflow = false;
    let mut i: usize = 0;
    proof {
        assert(s@.subrange(0, 0) =~= Seq::<char>::empty());
    }
    while i < s.len()
        invariant
            i <= s@.len(),
            all_digits(s@.subrange(0, i as int)),
            !overflow ==> value == decimal_value(s@.subrange(0, i as int)) && value <= u32::MAX,
            overflow ==> decimal_value(s@.subrange(0, i as int)) > u32::MAX,
        decreases s@.len() - i,
    {
        let c = s[i];
        let ghost before = s@.subrange(0, i as int);
        let ghost after = s@.subrange(0, i + 1);
        proof {
            assert(after.drop_last() =~= before);
            assert(after.last() == c);
        }
        if !('0' <= c && c <= '9') {
            assert(!all_digits(s@)) by {
                assert(!is_ascii_digit(s@[i as int]));
            }
            return None;
        }
        let digit: u64 = ((c as u32) - ('0' as u32)) as u64;
        proof {
            let d = decimal_value(before);
            assert(decimal_value(after) == d * 10 + digit);
            if overflow {
                assert(d * 10 + digit > u32::MAX) by (nonlinear_arith)
                    requires
                        d > u32::MAX,
                        digit >= 0,
                ;
            }
        }
        if !overflow {
            value = value * 10 + digit;
            if value > 4294967295u64 {
                overflow = true;
            }
        }
        proof {
            assert forall|k: int| 0 <= k < after.len() implies is_ascii_digit(#[trigger] after[k]) by {
                if k < i {
                    assert(after[k] == before[k]);
                }
            }
        }
        i = i + 1;
    }
    proof {
        assert(s@.subrange(0, i as int) =~= s@);
    }
    if overflow {
        None
    } else {
        Some(value as u32)
    }
}

/// A minor engine line with a backend.
pub open spec fn supported_minor(m: Seq<char>) -> bool {
    m == "16"@ || m == "17"@ || m == "18"@ || m == "19"@
}

/// An exact stable release of a supported line: `0.<minor>.<patch>` with a
/// decimal patch that fits in a `u32`; `0.16.0` is excluded.
pub open spec fn supported_release(version: Seq<char>) -> bool {
    let p = pieces(version, '.');
    &&& p.len() == 3
    &&& p[0] == "0"@
    &&& supported_minor(p[1])
    &&& is_u32_text(p[2])
    &&& !(p[1] == "16"@ && decimal_value(p[2]) == 0)
}

/// The text `0.<minor>.<patch>`.
pub open spec fn release_text(minor: Seq<char>, patch: Seq<char>) -> Seq<char> {
    seq!['0', '.'] + minor + seq!['.'] + patch
}

proof fn lemma_release_pieces(minor: Seq<char>, patch: Seq<char>)
    requires
        forall|i: int| 0 <= i < minor.len() ==> minor[i] != '.',
        forall|i: int| 0 <= i < patch.len() ==> patch[i] != '.',
    ensures
        pieces(release_text(minor, patch), '.') == seq![seq!['0'], minor, patch],
{
    let zero = seq!['0'];
    assert(release_text(minor, patch) =~= zero.push('.') + (minor.push('.') + patch));
    lemma_pieces_concat(zero, minor.push('.') + patch, '.');
    lemma_pieces_concat(minor, patch, '.');
    lemma_pieces_single(zero, '.');
    lemma_pieces_single(minor, '.');
    lemma_pieces_single(patch, '.');
    assert(seq![zero] + (seq![minor] + seq![patch]) =~= seq![zero, minor, patch]);
}

/// Every exact release `0.<minor>.<patch>` of a line with a backend (16 to 19),
/// with a decimal patch that fits in a `u32`, is supported and selects that
/// line, except the first release of the 0.16 line.
pub proof fn law_exact_releases_of_each_line_are_supported(minor: Seq<char>, patch: Seq<char>)
    requires
        minor == "16"@ || minor == "17"@ || minor == "18"@ || minor == "19"@,
        patch.len() > 0,
        forall|i: int| 0 <= i < patch.len() ==> '0' <= #[trigger] patch[i] && patch[i] <= '9',
        decimal_value(patch) <= u32::MAX,
        !(minor == "16"@ && decimal_value(patch) == 0),
    ensures
        supported_release(release_text(minor, patch)),
        pieces(release_text(minor, patch), '.')[1] == minor,
{
    reveal_strlit("0");
    reveal_strlit("16");
    reveal_strlit("17");
    reveal_strlit("18");
    reveal_strlit("19");
    lemma_release_pieces(minor, patch);
    assert(seq!['0'] =~= "0"@);
}

/// The first release of the 0.16 line, `0.16.0` however its zero patch is
/// written, is not supported.
pub proof fn law_first_016_release_is_refused(patch: Seq<char>)
    requires
        forall|i: int| 0 <= i < patch.len() ==> '0' <= #[trigger] patch[i] && patch[i] <= '9',
        decimal_value(patch) == 0,
    ensures
        !supported_release(release_text("16"@, patch)),
{
    reveal_strlit("16");
    lemma_release_pieces("16"@, patch);
}

/// The backend feature for an exact release.
///
/// # Errors
/// Rejects anything but an exact stable release of a supported line.
pub fn backend(version: &str) -> (r: Result<String, String>)
    ensures
        r is Ok <==> supported_release(version@),
        r matches Ok(b) ==> b@ == "bevy-0-"@ + pieces(version@, '.')[1],
        r matches Err(e) ==> e@ == "unsupported exact stable release: "@ + version@,
{
    let chars = chars_of(version);
    let parts = split_chars(chars.as_slice(), '.');
    let ghost p = pieces(version@, '.');
    proof {
        assert(parts@.len() == p.len());
        reveal_strlit("0");
        reveal_strlit("16");
        reveal_strlit("17");
        reveal_strlit("18");
        reveal_strlit("19");
    }
    let mut ok = parts.len() == 3;
    if ok {
        proof {
            assert(parts@[0]@ == p[0]);
            assert(parts@[1]@ == p[1]);
            assert(parts@[2]@ == p[2]);
        }
        let zero = chars_of("0");
        let major = chars_equal(parts[0].as_slice(), zero.as_slice());
        let m16 = chars_of("16");
        let m17 = chars_of("17");
        let m18 = chars_of("18");
        let m19 = chars_of("19");
        let is16 = chars_equal(parts[1].as_slice(), m16.as_slice());
        let minor = is16 || chars_equal(parts[1].as_slice(), m17.as_slice()) || chars_equal(
            parts[1].as_slice(),
            m18.as_slice(),
        ) || chars_equal(parts[1].as_slice(), m19.as_slice());
        let patch = parse_u32_digits(parts[2].as_slice());
        ok = major && minor && match patch {
            Some(v) => !(is16 && v == 0),
            None => false,
        };
    }
    if !ok {
        let mut e = String::new();
        push_str(&mut e, "unsupported exact stable release: ");
        push_str(&mut e, version);
        return Err(e);
    }
    proof {
        assert(parts@[1]@ == p[1]);
    }
    let mut b = String::new();
    push_str(&mut b, "bevy-0-");
    push_chars(&mut b, parts[1].as_slice());
    Ok(b)
}

/// The version a package of the `version` release family must resolve to: the
/// 0.16.1 family needs the independently patched color crate 0.16.2.
pub open spec fn family_version(name: Seq<char>, version: Seq<char>) -> Seq<char> {
    if name == "bevy_color"@ && version == "0.16.1"@ {
        "0.16.2"@
    } else {
        version
    }
}

/// The released version of an engine package within a release family, as
/// [`family_version`] states it.
pub fn package_version<'a>(name: &str, version: &'a str) -> (r: &'a str)
    ensures
        r@ == family_version(name@, version@),
{
    if str_equal(name, "bevy_color") && str_equal(version, "0.16.1") {
        "0.16.2"
    } else {
        version
    }
}

/// A compiler diagnostic that rejects mutable access to an immutable resource:
/// the type-mismatch error on the component's mutability, required by `ResMut`.
pub open spec fn is_immutable_resource_error(diagnostic: Seq<char>) -> bool {
    &&& contains(diagnostic, "error[E0271]"@)
    &&& contains(diagnostic, "<Translations as Component>::Mutability == Mutable"@)
    &&& contains(diagnostic, "required by a bound in `ResMut`"@)
}

/// Whether `diagnostic` is the expected immutable-resource rejection.
pub fn immutable_resource_error(diagnostic: &str) -> (r: bool)
    ensures
        r == is_immutable_resource_error(diagnostic@),
{
    let text = chars_of(diagnostic);
    let code = chars_of("error[E0271]");
    let bound = chars_of("<Translations as Component>::Mutability == Mutable");
    let required = chars_of("required by a bound in `ResMut`");
    contains_exec(text.as_slice(), code.as_slice()) && contains_exec(text.as_slice(), bound.as_slice())
        && contains_exec(text.as_slice(), required.as_slice())
}

/// `s` with every trailing `c` removed.
pub open spec fn trim_end_char(s: Seq<char>, c: char) -> Seq<char>
    decreases s.len(),
{
    if s.len() > 0 && s.last() == c {
        trim_end_char(s.drop_last(), c)
    } else {
        s
    }
}

/// `s` with every trailing repetition of a nonempty `pat` removed.
pub open spec fn trim_end_str(s: Seq<char>, pat: Seq<char>) -> Seq<char>
    decreases s.len(),
{
    if pat.len() > 0 && pat.len() <= s.len() && s.subrange(s.len() - pat.len(), s.len() as int)
        == pat {
        trim_end_str(s.subrange(0, s.len() - pat.len()), pat)
    } else {
        s
    }
}

/// Remove every trailing `c`.
pub fn trim_end_char_exec(s: &[char], c: char) -> (r: Vec<char>)
    ensures
        r@ == trim_end_char(s@, c),
{
    let mut end: usize = s.len();
    proof {
        assert(s@.subrange(0, end as int) =~= s@);
    }
    while end > 0 && s[end - 1] == c
        invariant
            end <= s@.len(),
            trim_end_char(s@, c) == trim_end_char(s@.subrange(0, end as int), c),
        decreases end,
    {
        proof {
            assert(s@.subrange(0, end as int).drop_last() =~= s@.subrange(0, end - 1));
        }
        end = end - 1;
    }
    let mut r: Vec<char> = Vec::new();
    let mut i: usize = 0;
    while i < end
        invariant
            i <= end <= s@.len(),
            r@ == s@.subrange(0, i as int),
        decreases end - i,
    {
        r.push(s[i]);
        i = i + 1;
        proof {
            assert(r@ =~= s@.subrange(0, i as int));
        }
    }
    r
}

/// Remove every trailing repetition of `pat`.
pub fn trim_end_str_exec(s: &[char], pat: &[char]) -> (r: Vec<char>)
    ensures
        r@ == trim_end_str(s@, pat@),
{
    let mut end: usize = s.len();
    proof {
        assert(s@.subrange(0, end as int) =~= s@);
    }
    while pat.len() > 0 && pat.len() <= end && occurs_at_exec(s, pat, end - pat.len())
        invariant
            end <= s@.len(),
            trim_end_str(s@, pat@) == trim_end_str(s@.subrange(0, end as int), pat@),
        decreases end,
    {
        proof {
            let t = s@.subrange(0, end as int);
            assert(t.subrange(t.len() - pat@.len(), t.len() as int) =~= s@.subrange(
                end - pat@.len(),
                end as int,
            ));
            assert(t.subrange(0, t.len() - pat@.len()) =~= s@.subrange(0, end - pat@.len()));
        }
        end = end - pat.len();
    }
    proof {
        let t = s@.subrange(0, end as int);
        if pat@.len() > 0 && pat@.len() <= end {
            assert(t.subrange(t.len() - pat@.len(), t.len() as int) =~= s@.subrange(
                end - pat@.len(),
                end as int,
            ));
        }
    }
    let mut r: Vec<char> = Vec::new();
    let mut i: usize = 0;
    while i < end
        invariant
            i <= end <= s@.len(),
            r@ == s@.subrange(0, i as int),
        decreases end - i,
    {
        r.push(s[i]);
        i = i + 1;
        proof {
            assert(r@ =~= s@.subrange(0, i as int));
        }
    }
    r
}

/// One package of a dependency graph, as the metadata describes it.
pub struct PackageRecord {
    /// The package name, when it is a string.
    pub name: Option<String>,
    /// The package version, when it is a string.
    pub version: Option<String>,
    /// The metadata names a registry source for the package.
    pub source_is_string: bool,
    /// The repository URL, when it is a string.
    pub repository: Option<String>,
}

pub open spec fn opt_view(o: Option<String>) -> Option<Seq<char>> {
    match o {
        Some(s) => Some(s@),
        None => None,
    }
}

/// The text of a package record: name, version, whether a source is given, and
/// repository.
pub open spec fn record_view(p: PackageRecord) -> (Option<Seq<char>>, Option<Seq<char>>, bool, Option<Seq<char>>) {
    (opt_view(p.name), opt_view(p.version), p.source_is_string, opt_view(p.repository))
}

/// The packages that `cargo metadata` output lists, or `None` when the output
/// has no package array, or the JSON parser's diagnostic.
pub uninterp spec fn cargo_metadata_packages(json: Seq<u8>) -> Result<
    Option<Seq<(Option<Seq<char>>, Option<Seq<char>>, bool, Option<Seq<char>>)>>,
    Seq<char>,
>;

/// Parse JSON with `serde_json::from_slice` and describe each entry of its
/// `packages` array (`name`, `version` and `repository` when they are strings,
/// and whether `source` is a string). The result is a function of the bytes,
/// named [`cargo_metadata_packages`].
#[verifier::external_body]
fn parse_metadata_packages(json: &[u8]) -> (r: Result<Option<Vec<PackageRecord>>, String>)
    ensures
        match r {
            Ok(Some(records)) => cargo_metadata_packages(json@) == Ok::<
                Option<Seq<(Option<Seq<char>>, Option<Seq<char>>, bool, Option<Seq<char>>)>>,
                Seq<char>,
            >(Some(records@.map_values(|p: PackageRecord| record_view(p)))),
            Ok(None) => cargo_metadata_packages(json@) == Ok::<
                Option<Seq<(Option<Seq<char>>, Option<Seq<char>>, bool, Option<Seq<char>>)>>,
                Seq<char>,
            >(None),
            Err(e) => cargo_metadata_packages(json@) == Err::<
                Option<Seq<(Option<Seq<char>>, Option<Seq<char>>, bool, Option<Seq<char>>)>>,
                Seq<char>,
            >(e@),
        },
{
    let graph: serde_json::Value = serde_json::from_slice(json).map_err(|e| e.to_string())?;
    let Some(packages) = graph["packages"].as_array() else {
        return Ok(None);
    };
    Ok(Some(packages.iter().map(|p| PackageRecord {
        name: p["name"].as_str().map(str::to_owned),
        version: p["version"].as_str().map(str::to_owned),
        source_is_string: p["source"].is_string(),
        repository: p["repository"].as_str().map(str::to_owned),
    }).collect()))
}

/// The packages of `cargo metadata` output.
///
/// # Errors
/// Invalid JSON, or output without a package list.
pub fn read_metadata_packages(json: &[u8]) -> (r: Result<Vec<PackageRecord>, String>)
    ensures
        match cargo_metadata_packages(json@) {
            Ok(Some(records)) => r matches Ok(v) && v@.map_values(|p: PackageRecord| record_view(p))
                == records,
            Ok(None) => r matches Err(e) && e@ == "cargo metadata has no package list"@,
            Err(d) => r matches Err(e) && e@ == d,
        },
{
    match parse_metadata_packages(json)? {
        Some(records) => Ok(records),
        None => {
            let mut e = String::new();
            push_str(&mut e, "cargo metadata has no package list");
            Err(e)
        },
    }
}

/// `cargo metadata` output as a JSON value written back pretty-printed, or the
/// JSON parser's diagnostic.
pub uninterp spec fn pretty_json(json: Seq<u8>) -> Result<Seq<u8>, Seq<char>>;

/// Parse JSON with `serde_json::from_slice` and write the value back with
/// `serde_json::to_vec_pretty`. The result is a function of the bytes, named
/// [`pretty_json`].
#[verifier::external_body]
fn reformat_json(json: &[u8]) -> (r: Result<Vec<u8>, String>)
    ensures
        match r {
            Ok(bytes) => pretty_json(json@) == Ok::<Seq<u8>, Seq<char>>(bytes@),
            Err(e) => pretty_json(json@) == Err::<Seq<u8>, Seq<char>>(e@),
        },
{
    let value: serde_json::Value = serde_json::from_slice(json).map_err(|e| e.to_string())?;
    serde_json::to_vec_pretty(&value).map_err(|e| e.to_string())
}

/// The metadata kept beside a fixture for audit: the checked `cargo metadata`
/// output, pretty-printed.
///
/// # Errors
/// The JSON parser's diagnostic.
pub fn audit_metadata(json: &[u8]) -> (r: Result<Vec<u8>, String>)
    ensures
        match pretty_json(json@) {
            Ok(bytes) => r matches Ok(b) && b@ == bytes,
            Err(d) => r matches Err(e) && e@ == d,
        },
{
    reformat_json(json)
}

/// The engine's own repository.
pub open spec fn engine_repository() -> Seq<char> {
    "https://github.com/bevyengine/bevy"@
}

/// A package of the engine's release family: its repository is the engine's
/// (ignoring trailing `/` and `.git`), or it is the ECS macro crate from a
/// registry, whose metadata omits the repository in some releases.
pub open spec fn is_official(p: PackageRecord) -> bool {
    ||| p.name matches Some(n) && n@ == "bevy_ecs_macros"@ && p.source_is_string
    ||| p.repository matches Some(repo) && trim_end_str(trim_end_char(repo@, '/'), ".git"@)
        == engine_repository()
}

/// The official packages among `packages`, in order.
pub open spec fn official_prefix(packages: Seq<PackageRecord>) -> Seq<PackageRecord>
    decreases packages.len(),
{
    if packages.len() == 0 {
        seq![]
    } else {
        let prev = official_prefix(packages.drop_last());
        if is_official(packages.last()) {
            prev.push(packages.last())
        } else {
            prev
        }
    }
}

fn official(p: &PackageRecord) -> (r: bool)
    ensures
        r == is_official(*p),
{
    let by_name = match &p.name {
        Some(n) => str_equal(n.as_str(), "bevy_ecs_macros"),
        None => false,
    };
    if by_name && p.source_is_string {
        return true;
    }
    match &p.repository {
        Some(repo) => {
            let chars = chars_of(repo.as_str());
            let trimmed = trim_end_char_exec(chars.as_slice(), '/');
            let git = chars_of(".git");
            let bare = trim_end_str_exec(trimmed.as_slice(), git.as_slice());
            let engine = chars_of("https://github.com/bevyengine/bevy");
            chars_equal(bare.as_slice(), engine.as_slice())
        },
        None => false,
    }
}

/// The packages of the engine's release family, in order.
pub fn official_packages<'a>(packages: &'a [PackageRecord]) -> (r: Vec<&'a PackageRecord>)
    ensures
        r@.map_values(|p: &PackageRecord| *p) == official_prefix(packages@),
{
    let mut r: Vec<&'a PackageRecord> = Vec::new();
    let mut i: usize = 0;
    proof {
        assert(packages@.subrange(0, 0) =~= Seq::<PackageRecord>::empty());
        assert(r@.map_values(|p: &PackageRecord| *p) =~= Seq::<PackageRecord>::empty());
    }
    while i < packages.len()
        invariant
            i <= packages@.len(),
            r@.map_values(|p: &PackageRecord| *p) == official_prefix(packages@.subrange(0, i as int)),
        decreases packages@.len() - i,
    {
        let ghost old_r = r@;
        proof {
            assert(packages@.subrange(0, i + 1).drop_last() =~= packages@.subrange(0, i as int));
        }
        if official(&packages[i]) {
            r.push(&packages[i]);
            proof {
                assert(r@.map_values(|p: &PackageRecord| *p) =~= old_r.map_values(
                    |p: &PackageRecord| *p,
                ).push(packages@[i as int]));
            }
        }
        i = i + 1;
    }
    proof {
        assert(packages@.subrange(0, i as int) =~= packages@);
    }
    r
}

} // verus!
