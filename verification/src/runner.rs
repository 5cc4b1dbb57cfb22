//! Command line and fixture manifests of the release-compatibility runner.
use vstd::prelude::*;
use crate::checks::opt_text;
use crate::matrix::{backend, supported_release};
use crate::text::{chars_of, lines, push_char, push_str, split_lines, starts_with, starts_with_exec, str_equal};

verus! {

/// The runner's settings, before paths are resolved against the file system.
pub struct RunnerArguments {
    /// Generator checkout, as given.
    pub generator: String,
    /// Target directory, as given (relative to the working directory).
    pub target_dir: Option<String>,
    /// Pass `--offline` to cargo.
    pub offline: bool,
    /// Exact engine releases to test, in order.
    pub versions: Vec<String>,
}

/// What the command line asks for.
pub enum Invocation {
    /// Print usage and stop.
    Help,
    /// Test the listed releases.
    Run(RunnerArguments),
}

/// Settings read so far: generator, target directory, offline, versions.
pub type ArgState = (Option<Seq<char>>, Option<Seq<char>>, bool, Seq<Seq<char>>);

/// Read arguments left to right. `Ok(None)` asks for help; an option that
/// takes a value consumes the next argument whatever it is.
pub open spec fn scan_arguments(args: Seq<Seq<char>>, st: ArgState) -> Result<Option<ArgState>, Seq<char>>
    decreases args.len(),
{
    if args.len() == 0 {
        Ok(Some(st))
    } else {
        let a = args[0];
        let rest = args.drop_first();
        if a == "--generator"@ {
            if rest.len() == 0 {
                Err("missing generator path"@)
            } else {
                scan_arguments(rest.drop_first(), (Some(rest[0]), st.1, st.2, st.3))
            }
        } else if a == "--target-dir"@ {
            if rest.len() == 0 {
                Err("missing target directory"@)
            } else {
                scan_arguments(rest.drop_first(), (st.0, Some(rest[0]), st.2, st.3))
            }
        } else if a == "--offline"@ {
            scan_arguments(rest, (st.0, st.1, true, st.3))
        } else if a == "--help"@ || a == "-h"@ {
            Ok(None)
        } else if a.len() > 0 && a[0] == '-' {
            Err("unknown option: "@ + a)
        } else {
            scan_arguments(rest, (st.0, st.1, st.2, st.3.push(a)))
        }
    }
}

/// Asking for help, as `--help` or `-h`, ends the reading of the command line
/// with a request for usage, whatever follows and whatever was read before.
pub proof fn law_help_is_answered(args: Seq<Seq<char>>, st: ArgState)
    requires
        args.len() > 0,
        args[0] == "--help"@ || args[0] == "-h"@,
    ensures
        scan_arguments(args, st) == Ok::<Option<ArgState>, Seq<char>>(None),
{
    reveal_strlit("--help");
    reveal_strlit("-h");
    reveal_strlit("--generator");
    reveal_strlit("--target-dir");
    reveal_strlit("--offline");
    let a = args[0];
    assert(a.len() == 6 || a.len() == 2);
    assert(a != "--generator"@ && a != "--target-dir"@ && a != "--offline"@) by {
        assert("--generator"@.len() == 11);
        assert("--target-dir"@.len() == 12);
        assert("--offline"@.len() == 9);
    }
}

/// The first version that is not a supported exact release, if any.
pub open spec fn first_unsupported(versions: Seq<Seq<char>>) -> Option<Seq<char>>
    decreases versions.len(),
{
    if versions.len() == 0 {
        None
    } else if !supported_release(versions[0]) {
        Some(versions[0])
    } else {
        first_unsupported(versions.drop_first())
    }
}

fn text(s: &str) -> (r: String)
    ensures
        r@ == s@,
{
    let mut r = String::new();
    push_str(&mut r, s);
    r
}

/// Read the runner's command line (without the program name).
///
/// # Errors
/// A missing option value, an unknown option, no version, an unsupported
/// version, or no generator checkout.
pub fn parse_arguments(args: &[String]) -> (r: Result<Invocation, String>)
    ensures
        match scan_arguments(args@.map_values(|a: String| a@), (None, None, false, seq![])) {
            Err(e) => r matches Err(f) && f@ == e,
            Ok(None) => r matches Ok(Invocation::Help),
            Ok(Some(st)) => if st.3.len() == 0 {
                r matches Err(f) && f@ == "provide at least one supported exact Bevy version"@
            } else if first_unsupported(st.3) is Some {
                r matches Err(f) && f@ == "unsupported exact stable release: "@ + first_unsupported(
                    st.3,
                )->0
            } else if st.0 is None {
                r matches Err(f) && f@
                    == "--generator PATH is required to verify an explicit generator checkout"@
            } else {
                r matches Ok(Invocation::Run(o)) && o.generator@ == st.0->0 && match o.target_dir {
                    Some(t) => st.1 == Some(t@),
                    None => st.1 is None,
                } && o.offline == st.2 && o.versions@.map_values(|v: String| v@) == st.3
            },
        },
{
    let ghost all = args@.map_values(|a: String| a@);
    let mut generator: Option<String> = None;
    let mut target: Option<String> = None;
    let mut offline = false;
    let mut versions: Vec<String> = Vec::new();
    let mut i: usize = 0;
    proof {
        assert(all.skip(0) =~= all);
        assert(versions@.map_values(|v: String| v@) =~= Seq::<Seq<char>>::empty());
        reveal_strlit("--generator");
        reveal_strlit("--target-dir");
        reveal_strlit("--offline");
        reveal_strlit("--help");
        reveal_strlit("-h");
    }
    while i < args.len()
        invariant
            i <= args@.len(),
            all == args@.map_values(|a: String| a@),
            scan_arguments(all, (None, None, false, seq![])) == scan_arguments(
                all.skip(i as int),
                (opt_text(generator), opt_text(target), offline, versions@.map_values(|v: String| v@)),
            ),
        decreases args@.len() - i,
    {
        let a = args[i].as_str();
        proof {
            assert(all.skip(i as int)[0] == a@);
            assert(all.skip(i as int).drop_first() =~= all.skip(i + 1));
            if i + 1 < args@.len() {
                assert(all.skip(i + 1)[0] == args@[i + 1]@);
                assert(all.skip(i + 1).drop_first() =~= all.skip(i + 2));
            }
        }
        if str_equal(a, "--generator") {
            if i + 1 >= args.len() {
                return Err(text("missing generator path"));
            }
            generator = Some(args[i + 1].clone());
            i = i + 2;
        } else if str_equal(a, "--target-dir") {
            if i + 1 >= args.len() {
                return Err(text("missing target directory"));
            }
            target = Some(args[i + 1].clone());
            i = i + 2;
        } else if str_equal(a, "--offline") {
            offline = true;
            i = i + 1;
        } else if str_equal(a, "--help") || str_equal(a, "-h") {
            return Ok(Invocation::Help);
        } else {
            let chars = chars_of(a);
            if chars.len() > 0 && chars[0] == '-' {
                let mut e = text("unknown option: ");
                push_str(&mut e, a);
                return Err(e);
            }
            let ghost old_versions = versions@;
            versions.push(args[i].clone());
            proof {
                assert(versions@.map_values(|v: String| v@) =~= old_versions.map_values(
                    |v: String| v@,
                ).push(a@));
            }
            i = i + 1;
        }
    }
    proof {
        assert(all.skip(i as int) =~= Seq::<Seq<char>>::empty());
    }
    if versions.len() == 0 {
        return Err(text("provide at least one supported exact Bevy version"));
    }
    let ghost vs = versions@.map_values(|v: String| v@);
    let mut j: usize = 0;
    proof {
        assert(vs.skip(0) =~= vs);
    }
    while j < versions.len()
        invariant
            j <= versions@.len(),
            vs == versions@.map_values(|v: String| v@),
            all == args@.map_values(|a: String| a@),
            scan_arguments(all, (None, None, false, seq![])) == Ok::<Option<ArgState>, Seq<char>>(
                Some((opt_text(generator), opt_text(target), offline, vs)),
            ),
            first_unsupported(vs) == first_unsupported(vs.skip(j as int)),
        decreases versions@.len() - j,
    {
        proof {
            assert(vs.skip(j as int)[0] == versions@[j as int]@);
            assert(vs.skip(j as int).drop_first() =~= vs.skip(j + 1));
        }
        match backend(versions[j].as_str()) {
            Ok(_) => {},
            Err(e) => {
                return Err(e);
            },
        }
        j = j + 1;
    }
    proof {
        assert(vs.skip(j as int) =~= Seq::<Seq<char>>::empty());
    }
    match generator {
        None => Err(text("--generator PATH is required to verify an explicit generator checkout")),
        Some(g) => Ok(Invocation::Run(RunnerArguments { generator: g, target_dir: target, offline, versions })),
    }
}

/// Directory entries that a fixture copy leaves out: build output, the lock file
/// and version-control data.
pub fn skipped_entry(name: &str) -> (r: bool)
    ensures
        r == (name@ == "target"@ || name@ == "Cargo.lock"@ || name@ == ".git"@),
{
    str_equal(name, "target") || str_equal(name, "Cargo.lock") || str_equal(name, ".git")
}

/// The manifest text of one pinned dependency line.
pub open spec fn pin_line(name: Seq<char>, version: Seq<char>) -> Seq<char> {
    name + " = { version = \"="@ + version + "\", default-features = false }\n"@
}

/// Pinned dependency lines for `names`, in order.
pub open spec fn pin_lines(names: Seq<Seq<char>>, version: Seq<char>) -> Seq<char>
    decreases names.len(),
{
    if names.len() == 0 {
        seq![]
    } else {
        pin_lines(names.drop_last(), version) + pin_line(names.last(), version)
    }
}

/// The manifest header of the version-pin package.
pub open spec fn pin_header() -> Seq<char> {
    "[package]\nname = \"bevy-version-pins\"\nversion = \"0.0.0\"\nedition = \"2024\"\n[lib]\npath = \"lib.rs\"\n[dependencies]\n"@
}

/// The manifest of a resolution-only package that pins each name to exactly
/// `version`, without default features.
pub fn pin_manifest(names: &[String], version: &str) -> (r: String)
    ensures
        r@ == pin_header() + pin_lines(names@.map_values(|n: String| n@), version@),
{
    let ghost ns = names@.map_values(|n: String| n@);
    let mut r = text(
        "[package]\nname = \"bevy-version-pins\"\nversion = \"0.0.0\"\nedition = \"2024\"\n[lib]\npath = \"lib.rs\"\n[dependencies]\n",
    );
    let mut i: usize = 0;
    proof {
        assert(ns.subrange(0, 0) =~= Seq::<Seq<char>>::empty());
        assert(r@ =~= pin_header() + pin_lines(ns.subrange(0, 0), version@));
    }
    while i < names.len()
        invariant
            i <= names@.len(),
            ns == names@.map_values(|n: String| n@),
            r@ == pin_header() + pin_lines(ns.subrange(0, i as int), version@),
        decreases names@.len() - i,
    {
        let ghost before = r@;
        push_str(&mut r, names[i].as_str());
        push_str(&mut r, " = { version = \"=");
        push_str(&mut r, version);
        push_str(&mut r, "\", default-features = false }\n");
        proof {
            assert(ns.subrange(0, i + 1).drop_last() =~= ns.subrange(0, i as int));
            assert(ns.subrange(0, i + 1).last() == names@[i as int]@);
            assert(r@ =~= before + pin_line(names@[i as int]@, version@));
        }
        i = i + 1;
    }
    proof {
        assert(ns.subrange(0, i as int) =~= ns);
    }
    r
}

/// The text appended to the copied library manifest: a workspace of the bridge,
/// the minimal example and the pin package, with the generator patched to the
/// checkout given as a JSON string literal.
pub open spec fn workspace_section(generator_literal: Seq<char>) -> Seq<char> {
    "\n[workspace]\nmembers = [\"codegen_bridge\", \"examples/minimal\", \"version-pins\"]\nresolver = \"3\"\n[patch.crates-io]\nfluent_typed_codegen = { path = "@
        + generator_literal + " }\n[profile.dev]\ndebug = 0\n"@
}

/// The lower-case hexadecimal digit of `n`, for `0 <= n < 16`.
pub open spec fn hex_digit(n: int) -> char {
    if n < 10 {
        ('0' as int + n) as char
    } else {
        ('a' as int + n - 10) as char
    }
}

/// How JSON writes one character inside a string: quote and backslash escaped,
/// the short escapes for backspace, tab, line feed, form feed and carriage
/// return, `\u00XX` for the other control characters, anything else as is.
pub open spec fn json_escape(c: char) -> Seq<char> {
    if c == '\u{22}' {
        seq!['\u{5c}', '\u{22}']
    } else if c == '\u{5c}' {
        seq!['\u{5c}', '\u{5c}']
    } else if c == '\u{8}' {
        seq!['\u{5c}', 'b']
    } else if c == '\t' {
        seq!['\u{5c}', 't']
    } else if c == '\n' {
        seq!['\u{5c}', 'n']
    } else if c == '\u{c}' {
        seq!['\u{5c}', 'f']
    } else if c == '\r' {
        seq!['\u{5c}', 'r']
    } else if (c as int) < 0x20 {
        seq!['\u{5c}', 'u', '0', '0', hex_digit((c as int) / 16), hex_digit((c as int) % 16)]
    } else {
        seq![c]
    }
}

/// The escaped characters of a string, in order.
pub open spec fn json_escaped(text: Seq<char>) -> Seq<char>
    decreases text.len(),
{
    if text.len() == 0 {
        seq![]
    } else {
        json_escaped(text.drop_last()) + json_escape(text.last())
    }
}

/// A string as a JSON string literal: in double quotes, escaped.
pub open spec fn json_string_literal(text: Seq<char>) -> Seq<char> {
    seq!['\u{22}'] + json_escaped(text) + seq!['\u{22}']
}

/// Write a string as a JSON string literal with `serde_json::to_string`, which
/// escapes as [`json_string_literal`] states and cannot fail on a string: it
/// writes into memory, and only a failing writer makes it fail.
#[verifier::external_body]
fn json_string(text: &str) -> (r: Result<String, String>)
    ensures
        match r {
            Ok(s) => s@ == json_string_literal(text@),
            Err(_) => false,
        },
{
    serde_json::to_string(text).map_err(|e| e.to_string())
}

/// The fixture's workspace manifest for a generator checkout at `generator`:
/// the library's manifest followed by [`workspace_section`] of the path
/// written as a JSON string. It always succeeds; the `Result` carries the
/// JSON writer's error type.
pub fn fixture_manifest(manifest: &str, generator: &str) -> (r: Result<String, String>)
    ensures
        r matches Ok(m) && m@ == manifest@ + workspace_section(json_string_literal(generator@)),
{
    let literal = json_string(generator)?;
    Ok(workspace_manifest(manifest, literal.as_str()))
}

/// The fixture's workspace manifest: the library's manifest followed by
/// [`workspace_section`].
pub fn workspace_manifest(manifest: &str, generator_literal: &str) -> (r: String)
    ensures
        r@ == manifest@ + workspace_section(generator_literal@),
{
    let mut r = text(manifest);
    push_str(
        &mut r,
        "\n[workspace]\nmembers = [\"codegen_bridge\", \"examples/minimal\", \"version-pins\"]\nresolver = \"3\"\n[patch.crates-io]\nfluent_typed_codegen = { path = ",
    );
    push_str(&mut r, generator_literal);
    push_str(&mut r, " }\n[profile.dev]\ndebug = 0\n");
    r
}

/// The first line of a report that starts with `host: `, without that prefix.
pub open spec fn host_line(ls: Seq<Seq<char>>) -> Option<Seq<char>>
    decreases ls.len(),
{
    if ls.len() == 0 {
        None
    } else if starts_with(ls[0], "host: "@) {
        Some(ls[0].subrange(6, ls[0].len() as int))
    } else {
        host_line(ls.drop_first())
    }
}

/// The host target that `rustc -vV` reports: the rest of its first line that
/// starts with `host: `, or `None` when no line does.
pub fn host_triple(report: &str) -> (r: Option<String>)
    ensures
        match host_line(lines(report@)) {
            Some(h) => r matches Some(t) && t@ == h,
            None => r is None,
        },
{
    let chars = chars_of(report);
    let ls = split_lines(chars.as_slice());
    let ghost lv = lines(report@);
    let prefix = chars_of("host: ");
    proof {
        reveal_strlit("host: ");
        assert(lv.skip(0) =~= lv);
    }
    let mut i: usize = 0;
    while i < ls.len()
        invariant
            i <= ls@.len(),
            ls@.map_values(|v: Vec<char>| v@) == lv,
            lv == lines(report@),
            prefix@ == "host: "@,
            prefix@.len() == 6,
            host_line(lv) == host_line(lv.skip(i as int)),
        decreases ls@.len() - i,
    {
        proof {
            assert(lv.skip(i as int)[0] == ls@[i as int]@);
            assert(lv.skip(i as int).drop_first() =~= lv.skip(i + 1));
        }
        if starts_with_exec(ls[i].as_slice(), prefix.as_slice()) {
            let line = &ls[i];
            let mut host = String::new();
            let mut j: usize = 6;
            assert(host@ =~= line@.subrange(6, 6));
            while j < line.len()
                invariant
                    6 <= j <= line@.len(),
                    host@ == line@.subrange(6, j as int),
                decreases line@.len() - j,
            {
                push_char(&mut host, line[j]);
                j = j + 1;
                proof {
                    assert(host@ =~= line@.subrange(6, j as int));
                }
            }
            return Some(host);
        }
        i = i + 1;
    }
    proof {
        assert(lv.skip(i as int) =~= Seq::<Seq<char>>::empty());
    }
    None
}

} // verus!
