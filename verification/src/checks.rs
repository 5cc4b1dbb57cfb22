//! Judgements of the compatibility runner over isolated consumer graphs.
use vstd::prelude::*;
use crate::graph::pairs_view;
use crate::matrix::{family_version, immutable_resource_error, is_immutable_resource_error, package_version};
use crate::text::{
    chars_of, contains, contains_exec, lines, push_chars, push_str, split_lines, split_words,
    starts_with, starts_with_exec, str_equal, words,
};

verus! {

/// Some package of `set` has a name that `bad` accepts.
pub open spec fn some_name(set: Seq<(Seq<char>, Seq<char>)>, bad: spec_fn(Seq<char>) -> bool) -> bool {
    exists|i: int| 0 <= i < set.len() && bad(#[trigger] set[i].0)
}

/// An engine package in a graph that must stay free of the engine.
pub open spec fn is_engine_package(name: Seq<char>) -> bool {
    name == "bevy"@ || starts_with(name, "bevy_0_"@) || name == "bevy_internal"@
}

/// A host-only generation package.
pub open spec fn is_generator_package(name: Seq<char>) -> bool {
    name == "fluent_typed_codegen"@
}

/// A code-generation package in a graph built without code generation.
pub open spec fn is_codegen_package(name: Seq<char>) -> bool {
    name == "bevy_fluent_codegen_bridge"@ || name == "fluent_typed_codegen"@
}

fn engine_package(name: &str) -> (r: bool)
    ensures
        r == is_engine_package(name@),
{
    let chars = chars_of(name);
    let prefix = chars_of("bevy_0_");
    str_equal(name, "bevy") || starts_with_exec(chars.as_slice(), prefix.as_slice()) || str_equal(
        name,
        "bevy_internal",
    )
}

fn codegen_package(name: &str) -> (r: bool)
    ensures
        r == is_codegen_package(name@),
{
    str_equal(name, "bevy_fluent_codegen_bridge") || str_equal(name, "fluent_typed_codegen")
}

/// The build-only facade graph holds the generator and nothing of the engine.
///
/// # Errors
/// The graph holds an engine package, or lacks the generator.
pub fn check_build_facade(host: &[(String, String)]) -> (r: Result<(), String>)
    ensures
        some_name(pairs_view(host@), |n: Seq<char>| is_engine_package(n)) ==> (r matches Err(e)
            && e@ == "build-only facade unexpectedly depends on Bevy"@),
        !some_name(pairs_view(host@), |n: Seq<char>| is_engine_package(n)) && !some_name(
            pairs_view(host@),
            |n: Seq<char>| is_generator_package(n),
        ) ==> (r matches Err(e) && e@ == "build facade is missing its generator"@),
        r is Ok <==> !some_name(pairs_view(host@), |n: Seq<char>| is_engine_package(n)) && some_name(
            pairs_view(host@),
            |n: Seq<char>| is_generator_package(n),
        ),
{
    let ghost view = pairs_view(host@);
    let mut engine = false;
    let mut generator = false;
    let mut i: usize = 0;
    while i < host.len()
        invariant
            i <= host@.len(),
            view == pairs_view(host@),
            engine == exists|k: int| 0 <= k < i && is_engine_package(#[trigger] view[k].0),
            generator == exists|k: int| 0 <= k < i && is_generator_package(#[trigger] view[k].0),
        decreases host@.len() - i,
    {
        let name = host[i].0.as_str();
        assert(view[i as int].0 == name@);
        if engine_package(name) {
            engine = true;
        }
        if str_equal(name, "fluent_typed_codegen") {
            generator = true;
        }
        i = i + 1;
    }
    if engine {
        return Err(crate::text::string_of(chars_of("build-only facade unexpectedly depends on Bevy").as_slice()));
    }
    if !generator {
        return Err(crate::text::string_of(chars_of("build facade is missing its generator").as_slice()));
    }
    Ok(())
}

/// The runtime graph built without code generation holds neither the bridge
/// nor the generator.
///
/// # Errors
/// The graph holds a code-generation package.
pub fn check_runtime_graph(runtime: &[(String, String)]) -> (r: Result<(), String>)
    ensures
        r is Ok <==> !some_name(pairs_view(runtime@), |n: Seq<char>| is_codegen_package(n)),
        r matches Err(e) ==> e@
            == "runtime without codegen unexpectedly depends on the bridge/generator"@,
{
    let ghost view = pairs_view(runtime@);
    let mut i: usize = 0;
    while i < runtime.len()
        invariant
            i <= runtime@.len(),
            view == pairs_view(runtime@),
            forall|k: int| 0 <= k < i ==> !is_codegen_package(#[trigger] view[k].0),
        decreases runtime@.len() - i,
    {
        let name = runtime[i].0.as_str();
        assert(view[i as int].0 == name@);
        if codegen_package(name) {
            return Err(
                crate::text::string_of(
                    chars_of(
                        "runtime without codegen unexpectedly depends on the bridge/generator",
                    ).as_slice(),
                ),
            );
        }
        i = i + 1;
    }
    Ok(())
}

/// A host-only package that must not reach the target graph.
pub open spec fn is_host_only(word: Seq<char>) -> bool {
    word == "fluent_typed_codegen"@ || word == "prettyplease"@ || word == "tempfile"@
}

/// A line of the target graph that names a host-only package first.
pub open spec fn names_host_only(line: Seq<char>) -> bool {
    words(line).len() > 0 && is_host_only(words(line)[0])
}

/// No line of the target dependency graph names a host-only package.
///
/// # Errors
/// The first offending line.
pub fn check_target_graph(text: &str) -> (r: Result<(), String>)
    ensures
        r is Ok <==> forall|i: int|
            0 <= i < lines(text@).len() ==> !names_host_only(#[trigger] lines(text@)[i]),
        r matches Err(e) ==> exists|i: int|
            0 <= i < lines(text@).len() && names_host_only(#[trigger] lines(text@)[i]) && (forall|
                k: int,
            | 0 <= k < i ==> !names_host_only(#[trigger] lines(text@)[k])) && e@
                == "host-only generator dependency entered target graph: "@ + lines(text@)[i],
{
    let chars = chars_of(text);
    let ls = split_lines(chars.as_slice());
    let ghost lv = lines(text@);
    let mut i: usize = 0;
    while i < ls.len()
        invariant
            i <= ls@.len(),
            ls@.map_values(|v: Vec<char>| v@) == lv,
            lv == lines(text@),
            forall|k: int| 0 <= k < i ==> !names_host_only(#[trigger] lv[k]),
        decreases ls@.len() - i,
    {
        let w = split_words(ls[i].as_slice());
        proof {
            assert(ls@[i as int]@ == lv[i as int]);
        }
        if w.len() > 0 {
            let first = crate::text::string_of(w[0].as_slice());
            proof {
                assert(w@[0]@ == words(lv[i as int])[0]);
            }
            if str_equal(first.as_str(), "fluent_typed_codegen") || str_equal(first.as_str(), "prettyplease")
                || str_equal(first.as_str(), "tempfile") {
                let mut e = String::new();
                push_str(&mut e, "host-only generator dependency entered target graph: ");
                push_chars(&mut e, ls[i].as_slice());
                return Err(e);
            }
        }
        i = i + 1;
    }
    Ok(())
}

/// A target graph with a line that names the generator, its pretty-printer or
/// the temporary-file crate first fails the check: these are host-only
/// packages of code generation.
pub proof fn law_host_only_packages_fail_the_target_graph(text: Seq<char>, i: int)
    requires
        0 <= i < lines(text).len(),
        words(lines(text)[i]).len() > 0,
        words(lines(text)[i])[0] == "fluent_typed_codegen"@ || words(lines(text)[i])[0]
            == "prettyplease"@ || words(lines(text)[i])[0] == "tempfile"@,
    ensures
        names_host_only(lines(text)[i]),
        !(forall|k: int| 0 <= k < lines(text).len() ==> !names_host_only(#[trigger] lines(text)[k])),
{
    assert(names_host_only(lines(text)[i]));
}

/// The resource-mutability probe behaved as the backend requires: on 0.19 the
/// probe fails with the immutable-resource error, elsewhere it compiles.
pub fn mutability_probe_valid(backend: &str, success: bool, diagnostic: &str) -> (r: bool)
    ensures
        r == (if backend@ == "bevy-0-19"@ {
            !success && is_immutable_resource_error(diagnostic@)
        } else {
            success
        }),
{
    if str_equal(backend, "bevy-0-19") {
        !success && immutable_resource_error(diagnostic)
    } else {
        success
    }
}

/// A command failed and its output mentions `diagnostic`.
pub fn failure_observed(success: bool, stdout: &str, stderr: &str, diagnostic: &str) -> (r: bool)
    ensures
        r == (!success && (contains(stdout@, diagnostic@) || contains(stderr@, diagnostic@))),
{
    if success {
        return false;
    }
    let d = chars_of(diagnostic);
    let out = chars_of(stdout);
    let err = chars_of(stderr);
    contains_exec(out.as_slice(), d.as_slice()) || contains_exec(err.as_slice(), d.as_slice())
}

/// A resolved engine package differs from the version its release family pins.
pub open spec fn mismatched(
    p: (Seq<char>, Seq<char>),
    official: Seq<Seq<char>>,
    version: Seq<char>,
) -> bool {
    official.contains(p.0) && p.1 != family_version(p.0, version)
}

/// The diagnostic for a resolved package that its release family does not pin.
pub open spec fn wrong_package_message(p: (Seq<char>, Seq<char>), version: Seq<char>) -> Seq<char> {
    "wrong engine package: "@ + p.0 + " "@ + p.1 + " (expected "@ + family_version(p.0, version)
        + ")"@
}

/// Every resolved official engine package has the family's exact version.
///
/// # Errors
/// The first package, in set order, whose resolved version differs.
pub fn check_engine_versions(
    active: &[(String, String)],
    official: &[String],
    version: &str,
) -> (r: Result<(), String>)
    ensures
        r is Ok <==> forall|i: int|
            0 <= i < active@.len() ==> !mismatched(
                #[trigger] pairs_view(active@)[i],
                official@.map_values(|s: String| s@),
                version@,
            ),
        r matches Err(e) ==> exists|i: int|
            0 <= i < active@.len() && mismatched(
                #[trigger] pairs_view(active@)[i],
                official@.map_values(|s: String| s@),
                version@,
            ) && (forall|k: int|
                0 <= k < i ==> !mismatched(
                    #[trigger] pairs_view(active@)[k],
                    official@.map_values(|s: String| s@),
                    version@,
                )) && e@ == wrong_package_message(pairs_view(active@)[i], version@),
{
    let ghost names = official@.map_values(|s: String| s@);
    let mut i: usize = 0;
    while i < active.len()
        invariant
            i <= active@.len(),
            names == official@.map_values(|s: String| s@),
            forall|k: int| 0 <= k < i ==> !mismatched(#[trigger] pairs_view(active@)[k], names, version@),
        decreases active@.len() - i,
    {
        let name = active[i].0.as_str();
        let resolved = active[i].1.as_str();
        let mut listed = false;
        let mut j: usize = 0;
        while j < official.len()
            invariant
                j <= official@.len(),
                names == official@.map_values(|s: String| s@),
                listed == exists|k: int| 0 <= k < j && names[k] == name@,
            decreases official@.len() - j,
        {
            assert(names[j as int] == official@[j as int]@);
            if str_equal(official[j].as_str(), name) {
                listed = true;
            }
            j = j + 1;
        }
        proof {
            if names.contains(name@) {
                let k = choose|k: int| 0 <= k < names.len() && names[k] == name@;
            }
        }
        let expected = package_version(name, version);
        if listed && !str_equal(resolved, expected) {
            proof {
                reveal_strlit("bevy_color");
                reveal_strlit("0.16.1");
                reveal_strlit("0.16.2");
                assert(mismatched(pairs_view(active@)[i as int], names, version@));
            }
            let mut e = String::new();
            push_str(&mut e, "wrong engine package: ");
            push_str(&mut e, name);
            push_str(&mut e, " ");
            push_str(&mut e, resolved);
            push_str(&mut e, " (expected ");
            push_str(&mut e, expected);
            push_str(&mut e, ")");
            proof {
                assert(e@ =~= wrong_package_message(pairs_view(active@)[i as int], version@));
            }
            return Err(e);
        }
        proof {
            reveal_strlit("bevy_color");
            reveal_strlit("0.16.1");
            reveal_strlit("0.16.2");
        }
        i = i + 1;
    }
    Ok(())
}

/// One JSON message of `cargo check --message-format=json`, as far as the
/// runner reads it.
pub struct CargoMessage {
    /// `reason`, when it is a string.
    pub reason: Option<String>,
    /// `target.name`, when it is a string.
    pub target_name: Option<String>,
    /// `features`, when it is an array: each element's string, if it is one.
    pub features: Option<Vec<Option<String>>>,
    /// `fresh`, when it is a boolean.
    pub fresh: Option<bool>,
}

pub open spec fn opt_text(o: Option<String>) -> Option<Seq<char>> {
    match o {
        Some(s) => Some(s@),
        None => None,
    }
}

pub open spec fn features_view(fs: Seq<Option<String>>) -> Seq<Option<Seq<char>>> {
    fs.map_values(|f: Option<String>| opt_text(f))
}

/// The text of a cargo message.
pub open spec fn message_view(m: CargoMessage) -> (
    Option<Seq<char>>,
    Option<Seq<char>>,
    Option<Seq<Option<Seq<char>>>>,
    Option<bool>,
) {
    (
        opt_text(m.reason),
        opt_text(m.target_name),
        match m.features {
            Some(fs) => Some(features_view(fs@)),
            None => None,
        },
        m.fresh,
    )
}

/// What `serde_json` reads from one line of cargo output, or its diagnostic.
pub uninterp spec fn cargo_message(line: Seq<char>) -> Result<
    (Option<Seq<char>>, Option<Seq<char>>, Option<Seq<Option<Seq<char>>>>, Option<bool>),
    Seq<char>,
>;

/// Parse one line with `serde_json::from_str` and read `reason`,
/// `target.name`, `features` and `fresh` from the value. The result is a
/// function of the line, named [`cargo_message`].
#[verifier::external_body]
fn parse_cargo_message(line: &str) -> (r: Result<CargoMessage, String>)
    ensures
        match r {
            Ok(m) => cargo_message(line@) == Ok::<
                (Option<Seq<char>>, Option<Seq<char>>, Option<Seq<Option<Seq<char>>>>, Option<bool>),
                Seq<char>,
            >(message_view(m)),
            Err(e) => cargo_message(line@) == Err::<
                (Option<Seq<char>>, Option<Seq<char>>, Option<Seq<Option<Seq<char>>>>, Option<bool>),
                Seq<char>,
            >(e@),
        },
{
    let message: serde_json::Value = serde_json::from_str(line).map_err(|e| e.to_string())?;
    Ok(CargoMessage {
        reason: message["reason"].as_str().map(str::to_owned),
        target_name: message["target"]["name"].as_str().map(str::to_owned),
        features: message["features"].as_array().map(
            |fs| fs.iter().map(|f| f.as_str().map(str::to_owned)).collect(),
        ),
        fresh: message["fresh"].as_bool(),
    })
}

/// Why the freshness check of a consumer build failed.
pub enum ArtifactCheckError {
    /// A line of output is not JSON; the parser's diagnostic.
    Parse(String),
    /// A facade artifact without a feature list.
    FeaturesMissing,
    /// The build-only facade was built with more features than `build`.
    LeakedFeatures(Vec<Option<String>>),
    /// The build-only and runtime facades were not both built.
    FacadesMissing,
    /// The consumer's own artifact message is missing.
    ArtifactMissing,
    /// The consumer was (not) rebuilt against the expectation.
    Freshness { expected: bool, actual: bool },
}

/// Some feature is exactly `name`.
pub open spec fn has_feature(fs: Seq<Option<Seq<char>>>, name: Seq<char>) -> bool {
    exists|i: int| 0 <= i < fs.len() && fs[i] == Some(name)
}

/// What the runner has seen so far: build facade, runtime facade, and the
/// consumer's freshness as the last consumer artifact reported it.
pub type Seen = (bool, bool, Option<bool>);

/// Read one message. `Err` carries a failure code (1: features missing,
/// 2: leaked features) and the offending feature list.
pub open spec fn read_message(
    seen: Seen,
    m: (Option<Seq<char>>, Option<Seq<char>>, Option<Seq<Option<Seq<char>>>>, Option<bool>),
) -> Result<Seen, (int, Seq<Option<Seq<char>>>)> {
    let artifact = m.0 == Some("compiler-artifact"@);
    let facade = if artifact && m.1 == Some("bevy_fluent_typed"@) {
        match m.2 {
            None => Err((1int, Seq::<Option<Seq<char>>>::empty())),
            Some(fs) => if has_feature(fs, "build"@) {
                if fs.len() != 1 {
                    Err((2int, fs))
                } else {
                    Ok((true, seen.1, seen.2))
                }
            } else if has_feature(fs, "runtime"@) {
                Ok((seen.0, true, seen.2))
            } else {
                Ok(seen)
            },
        }
    } else {
        Ok(seen)
    };
    match facade {
        Err(e) => Err(e),
        Ok(s) => if artifact && m.1 == Some("localization-codegen-example"@) {
            Ok((s.0, s.1, m.3))
        } else {
            Ok(s)
        },
    }
}

/// Read the output's lines in order; `Err` is a failure code as in
/// [`read_message`], or 0 with the parser's diagnostic for a line that is not JSON.
pub open spec fn read_output(ls: Seq<Seq<char>>) -> Result<Seen, (int, Seq<char>, Seq<Option<Seq<char>>>)>
    decreases ls.len(),
{
    if ls.len() == 0 {
        Ok((false, false, None))
    } else {
        match read_output(ls.drop_last()) {
            Err(e) => Err(e),
            Ok(seen) => match cargo_message(ls.last()) {
                Err(d) => Err((0int, d, Seq::<Option<Seq<char>>>::empty())),
                Ok(m) => match read_message(seen, m) {
                    Err(e) => Err((e.0, Seq::<char>::empty(), e.1)),
                    Ok(next) => Ok(next),
                },
            },
        }
    }
}

fn feature_present(fs: &[Option<String>], name: &str) -> (r: bool)
    ensures
        r == has_feature(features_view(fs@), name@),
{
    let ghost view = features_view(fs@);
    let mut i: usize = 0;
    while i < fs.len()
        invariant
            i <= fs@.len(),
            view == features_view(fs@),
            forall|k: int| 0 <= k < i ==> view[k] != Some(name@),
        decreases fs@.len() - i,
    {
        match &fs[i] {
            Some(f) => {
                if str_equal(f.as_str(), name) {
                    assert(view[i as int] == Some(name@));
                    return true;
                }
            },
            None => {},
        }
        i = i + 1;
    }
    false
}

fn copy_features(fs: &[Option<String>]) -> (r: Vec<Option<String>>)
    ensures
        features_view(r@) == features_view(fs@),
{
    let mut r: Vec<Option<String>> = Vec::new();
    let mut i: usize = 0;
    while i < fs.len()
        invariant
            i <= fs@.len(),
            r@.len() == i,
            forall|k: int| 0 <= k < i ==> opt_text(#[trigger] r@[k]) == opt_text(fs@[k]),
        decreases fs@.len() - i,
    {
        let f = match &fs[i] {
            Some(s) => Some(s.clone()),
            None => None,
        };
        r.push(f);
        i = i + 1;
    }
    assert(features_view(r@) =~= features_view(fs@));
    r
}

/// Judge the JSON output of a consumer check: both facades must have been
/// built (the build-only one with exactly the `build` feature), the consumer's
/// artifact must be reported, and its freshness must match `fresh` if given.
/// Returns whether the consumer was fresh.
pub fn assess_check_output(stdout: &str, fresh: Option<bool>) -> (r: Result<bool, ArtifactCheckError>)
    ensures
        match read_output(lines(stdout@)) {
            Err(e) => if e.0 == 0 {
                r matches Err(ArtifactCheckError::Parse(d)) && d@ == e.1
            } else if e.0 == 1 {
                r matches Err(ArtifactCheckError::FeaturesMissing)
            } else {
                r matches Err(ArtifactCheckError::LeakedFeatures(fs)) && features_view(fs@) == e.2
            },
            Ok(seen) => if !seen.0 || !seen.1 {
                r matches Err(ArtifactCheckError::FacadesMissing)
            } else if seen.2 is None {
                r matches Err(ArtifactCheckError::ArtifactMissing)
            } else if fresh matches Some(expected) && expected != seen.2->0 {
                r matches Err(ArtifactCheckError::Freshness { expected: x, actual: y }) && x
                    == fresh->0 && y == seen.2->0
            } else {
                r == Ok::<bool, ArtifactCheckError>(seen.2->0)
            },
        },
{
    let chars = chars_of(stdout);
    let ls = split_lines(chars.as_slice());
    let ghost lv = lines(stdout@);
    let mut build = false;
    let mut runtime = false;
    let mut artifact: Option<bool> = None;
    let mut i: usize = 0;
    proof {
        assert(lv.subrange(0, 0) =~= Seq::<Seq<char>>::empty());
        reveal_strlit("compiler-artifact");
        reveal_strlit("bevy_fluent_typed");
        reveal_strlit("localization-codegen-example");
        reveal_strlit("build");
        reveal_strlit("runtime");
    }
    while i < ls.len()
        invariant
            i <= ls@.len(),
            ls@.map_values(|v: Vec<char>| v@) == lv,
            lv == lines(stdout@),
            read_output(lv.subrange(0, i as int)) == Ok::<
                Seen,
                (int, Seq<char>, Seq<Option<Seq<char>>>),
            >((build, runtime, artifact)),
        decreases ls@.len() - i,
    {
        let ghost sub = lv.subrange(0, i + 1);
        proof {
            assert(sub.drop_last() =~= lv.subrange(0, i as int));
            assert(sub.last() == ls@[i as int]@);
        }
        let line = crate::text::string_of(ls[i].as_slice());
        let message = match parse_cargo_message(line.as_str()) {
            Ok(m) => m,
            Err(d) => {
                proof {
                    lemma_read_output_error(lv, i + 1);
                }
                return Err(ArtifactCheckError::Parse(d));
            },
        };
        let is_artifact = match &message.reason {
            Some(reason) => str_equal(reason.as_str(), "compiler-artifact"),
            None => false,
        };
        let facade = is_artifact && match &message.target_name {
            Some(name) => str_equal(name.as_str(), "bevy_fluent_typed"),
            None => false,
        };
        let consumer = is_artifact && match &message.target_name {
            Some(name) => str_equal(name.as_str(), "localization-codegen-example"),
            None => false,
        };
        if facade {
            match &message.features {
                None => {
                    proof {
                        lemma_read_output_error(lv, i + 1);
                    }
                    return Err(ArtifactCheckError::FeaturesMissing);
                },
                Some(fs) => {
                    if feature_present(fs.as_slice(), "build") {
                        if fs.len() != 1 {
                            proof {
                                lemma_read_output_error(lv, i + 1);
                            }
                            return Err(ArtifactCheckError::LeakedFeatures(copy_features(fs.as_slice())));
                        }
                        build = true;
                    } else if feature_present(fs.as_slice(), "runtime") {
                        runtime = true;
                    }
                },
            }
        }
        if consumer {
            artifact = message.fresh;
        }
        i = i + 1;
    }
    proof {
        assert(lv.subrange(0, i as int) =~= lv);
    }
    if !build || !runtime {
        return Err(ArtifactCheckError::FacadesMissing);
    }
    let actual = match artifact {
        Some(a) => a,
        None => {
            return Err(ArtifactCheckError::ArtifactMissing);
        },
    };
    match fresh {
        Some(expected) => {
            if actual != expected {
                return Err(ArtifactCheckError::Freshness { expected, actual });
            }
        },
        None => {},
    }
    Ok(actual)
}

proof fn lemma_read_output_error(ls: Seq<Seq<char>>, n: int)
    requires
        0 <= n <= ls.len(),
        read_output(ls.subrange(0, n)) is Err,
    ensures
        read_output(ls) == read_output(ls.subrange(0, n)),
    decreases ls.len() - n,
{
    if n < ls.len() {
        assert(ls.subrange(0, n + 1).drop_last() =~= ls.subrange(0, n));
        lemma_read_output_error(ls, n + 1);
    } else {
        assert(ls.subrange(0, n) =~= ls);
    }
}

/// A compiler-artifact message of the library whose feature list holds `feature`.
pub open spec fn facade_artifact(line: Seq<char>, feature: Seq<char>) -> bool {
    match cargo_message(line) {
        Ok(m) => m.0 == Some("compiler-artifact"@) && m.1 == Some("bevy_fluent_typed"@) && match m.2 {
            Some(fs) => exists|j: int| 0 <= j < fs.len() && fs[j] == Some(feature),
            None => false,
        },
        Err(_) => false,
    }
}

/// The build-only facade counts as built only when some line of the output is
/// a compiler artifact of the library with the `build` feature, and the
/// runtime facade only when one has the `runtime` feature: with no such line,
/// a successful reading has not seen it.
pub proof fn law_facades_are_seen_only_in_their_artifacts(ls: Seq<Seq<char>>)
    ensures
        (forall|i: int| 0 <= i < ls.len() ==> !facade_artifact(#[trigger] ls[i], "build"@))
            ==> (read_output(ls) matches Ok(seen) ==> !seen.0),
        (forall|i: int| 0 <= i < ls.len() ==> !facade_artifact(#[trigger] ls[i], "runtime"@))
            ==> (read_output(ls) matches Ok(seen) ==> !seen.1),
    decreases ls.len(),
{
    if ls.len() > 0 {
        let shorter = ls.drop_last();
        law_facades_are_seen_only_in_their_artifacts(shorter);
        let n = ls.len() - 1;
        assert(ls.last() == ls[n]);
        if forall|i: int| 0 <= i < ls.len() ==> !facade_artifact(#[trigger] ls[i], "build"@) {
            assert forall|i: int| 0 <= i < shorter.len() implies !facade_artifact(#[trigger] shorter[i], "build"@) by {
                assert(shorter[i] == ls[i]);
            }
            assert(!facade_artifact(ls[n], "build"@));
        }
        if forall|i: int| 0 <= i < ls.len() ==> !facade_artifact(#[trigger] ls[i], "runtime"@) {
            assert forall|i: int| 0 <= i < shorter.len() implies !facade_artifact(#[trigger] shorter[i], "runtime"@) by {
                assert(shorter[i] == ls[i]);
            }
            assert(!facade_artifact(ls[n], "runtime"@));
        }
    }
}

} // verus!
