//! One aggregate load reads all declared modules and checks each language on its own.
//!
//! The asset system reads bytes; everything it decides around those reads stands
//! here: which addresses are read, how failures are reported and which languages
//! are handed to the provider's parser.
use std::sync::Arc;
use vstd::prelude::*;
use crate::addresses::{
    has_forbidden_char, has_parent_segment, is_forbidden_char, is_locale_name,
    is_relative_address, names_file, parent_dir, validate_directory, validate_locale,
    validate_module, AddressError,
};
use crate::catalog::{CatalogDescriptor, FluentCatalog, Module, ModuleSource};
use crate::message::CatalogUpdate;
use crate::state::{after_publish, share, sources_view, Localization};
use crate::catalog::{declared_locales, declares, lemma_position_exists, position};
use crate::text::{chars_of, lemma_pieces_concat, pieces, push_char, push_str};

verus! {

/// `base` joined with `rel` as a file-system path: an absolute `rel` replaces
/// `base`; otherwise a `/` separates them unless `base` is empty or ends in `/`.
pub open spec fn join(base: Seq<char>, rel: Seq<char>) -> Seq<char> {
    if rel.len() > 0 && rel[0] == '/' {
        rel
    } else if base.len() == 0 {
        rel
    } else if base.last() == '/' {
        base + rel
    } else {
        base.push('/') + rel
    }
}

proof fn lemma_parent_concat(p: Seq<Seq<char>>, q: Seq<Seq<char>>)
    ensures
        has_parent_segment(p + q) == (has_parent_segment(p) || has_parent_segment(q)),
{
    let pq = p + q;
    if has_parent_segment(pq) {
        let k = choose|k: int| 0 <= k < pq.len() && pq[k] == parent_dir();
        if k < p.len() {
            assert(p[k] == parent_dir());
        } else {
            assert(q[k - p.len()] == parent_dir());
        }
    }
    if has_parent_segment(p) {
        let k = choose|k: int| 0 <= k < p.len() && p[k] == parent_dir();
        assert(pq[k] == parent_dir());
    }
    if has_parent_segment(q) {
        let k = choose|k: int| 0 <= k < q.len() && q[k] == parent_dir();
        assert(pq[p.len() + k] == parent_dir());
    }
}

proof fn lemma_forbidden_concat(a: Seq<char>, b: Seq<char>)
    ensures
        has_forbidden_char(a + b) == (has_forbidden_char(a) || has_forbidden_char(b)),
{
    let ab = a + b;
    if has_forbidden_char(ab) {
        let k = choose|k: int| 0 <= k < ab.len() && is_forbidden_char(ab[k]);
        if k < a.len() {
            assert(is_forbidden_char(a[k]));
        } else {
            assert(is_forbidden_char(b[k - a.len()]));
        }
    }
    if has_forbidden_char(a) {
        let k = choose|k: int| 0 <= k < a.len() && is_forbidden_char(a[k]);
        assert(is_forbidden_char(ab[k]));
    }
    if has_forbidden_char(b) {
        let k = choose|k: int| 0 <= k < b.len() && is_forbidden_char(b[k]);
        assert(is_forbidden_char(ab[a.len() + k]));
    }
}

/// Joining two relative addresses gives a relative address: neither side can
/// climb out of the base.
pub proof fn law_join_stays_relative(base: Seq<char>, rel: Seq<char>)
    requires
        is_relative_address(base),
        is_relative_address(rel),
    ensures
        is_relative_address(join(base, rel)),
{
    let j = join(base, rel);
    if base.last() == '/' {
        let stem = base.drop_last();
        assert(base =~= stem.push('/') + Seq::<char>::empty());
        assert(j =~= stem.push('/') + rel);
        lemma_pieces_concat(stem, Seq::<char>::empty(), '/');
        lemma_pieces_concat(stem, rel, '/');
        assert(pieces(Seq::<char>::empty(), '/') =~= seq![Seq::<char>::empty()]);
        lemma_parent_concat(pieces(stem, '/'), seq![Seq::<char>::empty()]);
        lemma_parent_concat(pieces(stem, '/'), pieces(rel, '/'));
        if has_parent_segment(seq![Seq::<char>::empty()]) {
            let k = choose|k: int| 0 <= k < 1 && seq![Seq::<char>::empty()][k] == parent_dir();
            assert(seq![Seq::<char>::empty()][k].len() == 0);
        }
        lemma_forbidden_concat(base, rel);
        assert(j =~= base + rel);
        assert(j[0] == base[0]);
    } else {
        assert(j =~= base.push('/') + rel);
        lemma_pieces_concat(base, rel, '/');
        lemma_parent_concat(pieces(base, '/'), pieces(rel, '/'));
        lemma_forbidden_concat(base.push('/'), rel);
        lemma_forbidden_concat(base, seq!['/']);
        assert(base.push('/') =~= base + seq!['/']);
        assert(!has_forbidden_char(seq!['/'])) by {
            if has_forbidden_char(seq!['/']) {
                let k = choose|k: int| 0 <= k < 1 && is_forbidden_char(seq!['/'][k]);
            }
        }
        assert(j[0] == base[0]);
    }
}

/// Every module address stays below the modules root: a relative root, a
/// locale directory name and a module file path join to a relative address.
pub proof fn law_module_addresses_stay_below_root(
    root: Seq<char>,
    locale: Seq<char>,
    module: Seq<char>,
)
    requires
        is_relative_address(root),
        is_locale_name(locale),
        names_file(module),
    ensures
        is_relative_address(join(join(root, locale), module)),
{
    law_join_stays_relative(root, locale);
    law_join_stays_relative(join(root, locale), module);
}

/// Join two path texts, as [`join`] specifies.
pub fn join_address(base: &str, rel: &str) -> (r: String)
    ensures
        r@ == join(base@, rel@),
{
    let b = chars_of(base);
    let tail = chars_of(rel);
    let mut r = String::new();
    if tail.len() > 0 && tail[0] == '/' {
        push_str(&mut r, rel);
        return r;
    }
    push_str(&mut r, base);
    if b.len() > 0 && b[b.len() - 1] != '/' {
        push_char(&mut r, '/');
    }
    push_str(&mut r, rel);
    r
}

/// The directory holding the locale directories: the definition's directory
/// joined with the descriptor's validated `modules_directory`.
pub fn modules_root(definition_directory: &str, descriptor: &CatalogDescriptor) -> (r: Result<
    String,
    AddressError,
>)
    ensures
        r is Ok <==> is_relative_address(descriptor.modules_directory@),
        r matches Ok(root) ==> root@ == join(definition_directory@, descriptor.modules_directory@),
        r matches Err(e) ==> e matches AddressError::InvalidAddress(text) && text@
            == descriptor.modules_directory@,
{
    validate_directory(descriptor.modules_directory.as_str())?;
    Ok(join_address(definition_directory, descriptor.modules_directory.as_str()))
}

/// One module of one locale, and the address it is read from.
pub struct ModulePlan {
    /// Relative path below the locale directory.
    pub path: &'static str,
    /// Address below the asset source: root, locale and path joined.
    pub address: String,
}

/// `e` is what validating `locale` as a locale directory reports.
pub open spec fn locale_refusal(locale: Seq<char>, e: AddressError) -> bool {
    if !is_relative_address(locale) {
        e matches AddressError::InvalidAddress(text) && text@ == locale
    } else {
        e == AddressError::NotOneDirectory
    }
}

/// `e` is what validating `path` as a module path reports.
pub open spec fn module_refusal(path: Seq<char>, e: AddressError) -> bool {
    if !is_relative_address(path) {
        e matches AddressError::InvalidAddress(text) && text@ == path
    } else {
        e == AddressError::NotAFile
    }
}

/// Validate one locale and its modules, in declaration order, and compute the
/// address of every module below `root`.
pub fn plan_locale(root: &str, locale: &str, modules: &[Module]) -> (r: Result<
    Vec<ModulePlan>,
    AddressError,
>)
    ensures
        r is Ok <==> is_locale_name(locale@) && forall|i: int|
            0 <= i < modules@.len() ==> names_file(#[trigger] modules@[i].path@),
        r matches Ok(plans) ==> plans@.len() == modules@.len() && forall|i: int|
            0 <= i < modules@.len() ==> #[trigger] plans@[i].path == modules@[i].path
                && plans@[i].address@ == join(join(root@, locale@), modules@[i].path@),
        r matches Err(e) ==> if !is_locale_name(locale@) {
            locale_refusal(locale@, e)
        } else {
            exists|j: int|
                0 <= j < modules@.len() && !names_file(#[trigger] modules@[j].path@) && (forall|
                    i: int,
                | 0 <= i < j ==> names_file(#[trigger] modules@[i].path@)) && module_refusal(
                    modules@[j].path@,
                    e,
                )
        },
{
    validate_locale(locale)?;
    let directory = join_address(root, locale);
    let mut plans: Vec<ModulePlan> = Vec::new();
    let mut i: usize = 0;
    while i < modules.len()
        invariant
            i <= modules@.len(),
            is_locale_name(locale@),
            directory@ == join(root@, locale@),
            plans@.len() == i,
            forall|k: int| 0 <= k < i ==> names_file(#[trigger] modules@[k].path@),
            forall|k: int|
                0 <= k < i ==> #[trigger] plans@[k].path == modules@[k].path && plans@[k].address@
                    == join(join(root@, locale@), modules@[k].path@),
        decreases modules@.len() - i,
    {
        let module = modules[i];
        match validate_module(module.path) {
            Ok(()) => {},
            Err(e) => {
                assert(!names_file(modules@[i as int].path@));
                return Err(e);
            },
        }
        let address = join_address(directory.as_str(), module.path);
        plans.push(ModulePlan { path: module.path, address });
        i = i + 1;
    }
    Ok(plans)
}

/// The sources that were read, in module order, as `(path, text)` pairs.
pub open spec fn read_sources(plans: Seq<ModulePlan>, reads: Seq<Result<String, String>>) -> Seq<
    (Seq<char>, Seq<char>),
>
    decreases reads.len(),
{
    if reads.len() == 0 {
        seq![]
    } else {
        let n = reads.len() - 1;
        let prev = read_sources(plans, reads.drop_last());
        match reads[n] {
            Ok(text) => prev.push((plans[n].path@, text@)),
            Err(_) => prev,
        }
    }
}

/// One line per failed read, in module order: the address, `: ` and the error.
pub open spec fn failure_lines(plans: Seq<ModulePlan>, reads: Seq<Result<String, String>>) -> Seq<
    Seq<char>,
>
    decreases reads.len(),
{
    if reads.len() == 0 {
        seq![]
    } else {
        let n = reads.len() - 1;
        let prev = failure_lines(plans, reads.drop_last());
        match reads[n] {
            Ok(_) => prev,
            Err(error) => prev.push(plans[n].address@ + seq![':', ' '] + error@),
        }
    }
}

/// Lines joined by `\n`, with no trailing newline.
pub open spec fn join_lines(lines: Seq<Seq<char>>) -> Seq<char>
    decreases lines.len(),
{
    if lines.len() == 0 {
        seq![]
    } else if lines.len() == 1 {
        lines[0]
    } else {
        join_lines(lines.drop_last()) + seq!['\n'] + lines.last()
    }
}

/// What reading one language's modules produced.
pub struct ModuleReads {
    /// Successfully read and decoded sources, in module order.
    pub sources: Vec<(&'static str, String)>,
    /// One diagnostic line per module that could not be read or decoded.
    pub failures: Vec<String>,
}

/// Sort the outcome of each module read (text, or the error's description) into
/// sources and failure lines. Reads continue after failures, so every readable
/// module still takes part in watching and recovery.
pub fn collect_reads(plans: &[ModulePlan], reads: Vec<Result<String, String>>) -> (r: ModuleReads)
    requires
        reads@.len() == plans@.len(),
    ensures
        sources_view(r.sources@) == read_sources(plans@, reads@),
        r.failures@.map_values(|f: String| f@) == failure_lines(plans@, reads@),
{
    let mut sources: Vec<(&'static str, String)> = Vec::new();
    let mut failures: Vec<String> = Vec::new();
    let ghost all = reads@;
    let mut i: usize = 0;
    proof {
        assert(all.subrange(0, 0) =~= Seq::<Result<String, String>>::empty());
        assert(sources_view(sources@) =~= seq![]);
        assert(failures@.map_values(|f: String| f@) =~= seq![]);
    }
    for read in it: reads
        invariant
            it.seq() == all,
            i == it.index(),
            all.len() == plans@.len(),
            sources_view(sources@) == read_sources(plans@, all.subrange(0, i as int)),
            failures@.map_values(|f: String| f@) == failure_lines(plans@, all.subrange(0, i as int)),
    {
        let ghost before = all.subrange(0, i as int);
        let ghost after = all.subrange(0, i + 1);
        let ghost old_sources = sources@;
        let ghost old_failures = failures@;
        proof {
            assert(after.drop_last() =~= before);
            assert(read == all[i as int]);
        }
        match read {
            Ok(text) => {
                sources.push((plans[i].path, text));
                proof {
                    assert(sources_view(sources@) =~= sources_view(old_sources).push(
                        (plans@[i as int].path@, all[i as int]->Ok_0@),
                    ));
                }
            },
            Err(error) => {
                let mut line = String::new();
                push_str(&mut line, plans[i].address.as_str());
                push_str(&mut line, ": ");
                push_str(&mut line, error.as_str());
                proof {
                    reveal_strlit(": ");
                    assert(line@ =~= plans@[i as int].address@ + seq![':', ' '] + error@);
                }
                failures.push(line);
                proof {
                    assert(failures@.map_values(|f: String| f@) =~= old_failures.map_values(
                        |f: String| f@,
                    ).push(line@));
                }
            },
        }
        i = i + 1;
    }
    proof {
        assert(all.subrange(0, i as int) =~= all);
    }
    ModuleReads { sources, failures }
}

/// The failure lines joined by newlines.
pub fn failure_report(failures: &[String]) -> (r: String)
    ensures
        r@ == join_lines(failures@.map_values(|f: String| f@)),
{
    let ghost lines = failures@.map_values(|f: String| f@);
    let mut r = String::new();
    let mut i: usize = 0;
    proof {
        assert(lines.subrange(0, 0) =~= Seq::<Seq<char>>::empty());
    }
    while i < failures.len()
        invariant
            i <= failures@.len(),
            lines == failures@.map_values(|f: String| f@),
            r@ == join_lines(lines.subrange(0, i as int)),
        decreases failures@.len() - i,
    {
        let ghost before = lines.subrange(0, i as int);
        let ghost after = lines.subrange(0, i + 1);
        proof {
            assert(after.drop_last() =~= before);
        }
        if i > 0 {
            push_char(&mut r, '\n');
        }
        push_str(&mut r, failures[i].as_str());
        proof {
            if i == 0 {
                assert(r@ =~= after[0]);
            } else {
                assert(r@ =~= join_lines(before) + seq!['\n'] + after.last());
            }
        }
        i = i + 1;
    }
    proof {
        assert(lines.subrange(0, i as int) =~= lines);
    }
    r
}

/// One language's load result: a parsed snapshot or a diagnostic, with the
/// sources that were read.
pub struct Candidate<C: FluentCatalog> {
    /// The language this candidate belongs to.
    pub locale: C::Locale,
    /// The provider's parsed catalog, or why the language was rejected.
    pub catalog: Result<Arc<C>, String>,
    /// Sources that were read, in module order.
    pub sources: Vec<(&'static str, String)>,
}

/// The provider's view of the sources that were read.
pub fn module_sources<'a>(sources: &'a [(&'static str, String)]) -> (r: Vec<ModuleSource<'a>>)
    ensures
        r@.len() == sources@.len(),
        forall|i: int|
            0 <= i < sources@.len() ==> (#[trigger] r@[i]).path@ == sources@[i].0@ && r@[i].source@
                == sources@[i].1@,
{
    let mut r: Vec<ModuleSource<'a>> = Vec::new();
    let mut i: usize = 0;
    while i < sources.len()
        invariant
            i <= sources@.len(),
            r@.len() == i,
            forall|k: int|
                0 <= k < i ==> (#[trigger] r@[k]).path@ == sources@[k].0@ && r@[k].source@
                    == sources@[k].1@,
        decreases sources@.len() - i,
    {
        r.push(ModuleSource { path: sources[i].0, source: sources[i].1.as_str() });
        i = i + 1;
    }
    r
}

/// The `(path, text)` pairs of module sources handed to a parser.
pub open spec fn module_view(sources: Seq<ModuleSource>) -> Seq<(Seq<char>, Seq<char>)> {
    sources.map_values(|m: ModuleSource| (m.path@, m.source@))
}

/// `catalog` holds the parser's outcome `parsed`: its catalog, shared, or its
/// diagnostic.
pub open spec fn holds_outcome<C>(catalog: Result<Arc<C>, String>, parsed: Result<C, String>) -> bool {
    match parsed {
        Ok(c) => catalog matches Ok(a) && *a == c,
        Err(e) => catalog == Err::<Arc<C>, String>(e),
    }
}

impl<C: FluentCatalog> Candidate<C> {
    /// A language whose modules were all read is handed to the provider's parser,
    /// with its sources in module order, and holds the parser's outcome; otherwise
    /// it is rejected with the failure lines, without parsing.
    pub fn assemble(locale: C::Locale, reads: ModuleReads) -> (r: Self)
        ensures
            r.locale == locale,
            sources_view(r.sources@) == sources_view(reads.sources@),
            reads.failures@.len() > 0 ==> (r.catalog matches Err(e) && e@ == join_lines(
                reads.failures@.map_values(|f: String| f@),
            )),
            reads.failures@.len() == 0 ==> exists|handed: &[ModuleSource], parsed: Result<C, String>|
                module_view(handed@) == sources_view(reads.sources@) && call_ensures(
                    C::parse,
                    (locale, handed),
                    parsed,
                ) && holds_outcome(r.catalog, parsed),
    {
        let ModuleReads { sources, failures } = reads;
        if failures.len() > 0 {
            let report = failure_report(failures.as_slice());
            return Candidate { locale, catalog: Err(report), sources };
        }
        let borrowed = module_sources(sources.as_slice());
        let parse = C::parse;
        let handed = borrowed.as_slice();
        let parsed = parse(locale, handed);
        proof {
            assert(module_view(handed@) =~= sources_view(sources@));
        }
        let catalog = match parsed {
            Ok(c) => Ok(Arc::new(c)),
            Err(e) => Err(e),
        };
        Candidate { locale, catalog, sources }
    }
}

/// The catalogs and sources after publishing every accepted candidate in order.
pub open spec fn after_candidates<C: FluentCatalog>(
    declared: Seq<C::Locale>,
    catalogs: Seq<C>,
    sources: Seq<Seq<(Seq<char>, Seq<char>)>>,
    candidates: Seq<Candidate<C>>,
) -> (Seq<C>, Seq<Seq<(Seq<char>, Seq<char>)>>)
    decreases candidates.len(),
{
    if candidates.len() == 0 {
        (catalogs, sources)
    } else {
        let prev = after_candidates(declared, catalogs, sources, candidates.drop_last());
        let last = candidates.last();
        match last.catalog {
            Ok(snapshot) => after_publish(
                prev.0,
                prev.1,
                position(declared, last.locale),
                *snapshot,
                sources_view(last.sources@),
            ),
            Err(_) => prev,
        }
    }
}

proof fn lemma_after_candidates_lengths<C: FluentCatalog>(
    declared: Seq<C::Locale>,
    catalogs: Seq<C>,
    sources: Seq<Seq<(Seq<char>, Seq<char>)>>,
    candidates: Seq<Candidate<C>>,
)
    requires
        declared_locales(declared),
        catalogs.len() == declared.len(),
        sources.len() == declared.len(),
        forall|i: int| 0 <= i < candidates.len() ==> declares(declared, #[trigger] candidates[i].locale),
    ensures
        after_candidates(declared, catalogs, sources, candidates).0.len() == declared.len(),
        after_candidates(declared, catalogs, sources, candidates).1.len() == declared.len(),
    decreases candidates.len(),
{
    if candidates.len() > 0 {
        let shorter = candidates.drop_last();
        assert forall|i: int| 0 <= i < shorter.len() implies declares(declared, #[trigger] shorter[i].locale) by {
            assert(shorter[i] == candidates[i]);
        }
        lemma_after_candidates_lengths(declared, catalogs, sources, shorter);
        lemma_position_exists(declared, candidates.last().locale);
    }
}

/// A language whose candidates in one load were all rejected keeps its last
/// good catalog and sources; other languages update independently.
pub proof fn law_rejected_languages_keep_their_last_good_catalog<C: FluentCatalog>(
    declared: Seq<C::Locale>,
    catalogs: Seq<C>,
    sources: Seq<Seq<(Seq<char>, Seq<char>)>>,
    candidates: Seq<Candidate<C>>,
    k: int,
)
    requires
        declared_locales(declared),
        catalogs.len() == declared.len(),
        sources.len() == declared.len(),
        0 <= k < declared.len(),
        forall|i: int| 0 <= i < candidates.len() ==> declares(declared, #[trigger] candidates[i].locale),
        forall|i: int|
            0 <= i < candidates.len() && (#[trigger] candidates[i]).catalog is Ok ==> position(
                declared,
                candidates[i].locale,
            ) != k,
    ensures
        after_candidates(declared, catalogs, sources, candidates).0[k] == catalogs[k],
        after_candidates(declared, catalogs, sources, candidates).1[k] == sources[k],
    decreases candidates.len(),
{
    if candidates.len() > 0 {
        let shorter = candidates.drop_last();
        assert forall|i: int| 0 <= i < shorter.len() implies declares(declared, #[trigger] shorter[i].locale) by {
            assert(shorter[i] == candidates[i]);
        }
        assert forall|i: int|
            0 <= i < shorter.len() && (#[trigger] shorter[i]).catalog is Ok implies position(
                declared,
                shorter[i].locale,
            ) != k by {
            assert(shorter[i] == candidates[i]);
        }
        law_rejected_languages_keep_their_last_good_catalog(declared, catalogs, sources, shorter, k);
        lemma_after_candidates_lengths(declared, catalogs, sources, shorter);
        let last = candidates[candidates.len() - 1];
        assert(last == candidates.last());
        let prev = after_candidates(declared, catalogs, sources, shorter);
        match last.catalog {
            Ok(snapshot) => {
                let pos = position(declared, last.locale);
                assert(pos != k);
                lemma_position_exists(declared, last.locale);
                if prev.1[pos] != sources_view(last.sources@) {
                    assert(prev.0.update(pos, *snapshot)[k] == prev.0[k]);
                    assert(prev.1.update(pos, sources_view(last.sources@))[k] == prev.1[k]);
                }
            },
            Err(_) => {},
        }
    }
}

/// A language accepted once in a load is published by it, whatever the other
/// languages' outcomes: it ends with the accepted sources, and with the new
/// catalog unless those sources equal the ones it had before the load.
pub proof fn law_accepted_language_is_published<C: FluentCatalog>(
    declared: Seq<C::Locale>,
    catalogs: Seq<C>,
    sources: Seq<Seq<(Seq<char>, Seq<char>)>>,
    candidates: Seq<Candidate<C>>,
    j: int,
)
    requires
        declared_locales(declared),
        catalogs.len() == declared.len(),
        sources.len() == declared.len(),
        forall|i: int| 0 <= i < candidates.len() ==> declares(declared, #[trigger] candidates[i].locale),
        0 <= j < candidates.len(),
        candidates[j].catalog is Ok,
        forall|i: int|
            0 <= i < candidates.len() && i != j && (#[trigger] candidates[i]).catalog is Ok
                ==> position(declared, candidates[i].locale) != position(
                declared,
                candidates[j].locale,
            ),
    ensures
        ({
            let k = position(declared, candidates[j].locale);
            let accepted = sources_view(candidates[j].sources@);
            let after = after_candidates(declared, catalogs, sources, candidates);
            &&& after.1[k] == accepted
            &&& after.0[k] == (if sources[k] == accepted {
                catalogs[k]
            } else {
                *candidates[j].catalog->Ok_0
            })
        }),
    decreases candidates.len(),
{
    let k = position(declared, candidates[j].locale);
    lemma_position_exists(declared, candidates[j].locale);
    let shorter = candidates.drop_last();
    assert forall|i: int| 0 <= i < shorter.len() implies declares(declared, #[trigger] shorter[i].locale) by {
        assert(shorter[i] == candidates[i]);
    }
    lemma_after_candidates_lengths(declared, catalogs, sources, shorter);
    let prev = after_candidates(declared, catalogs, sources, shorter);
    let last = candidates.last();
    assert(last == candidates[candidates.len() - 1]);
    if j == candidates.len() - 1 {
        assert forall|i: int|
            0 <= i < shorter.len() && (#[trigger] shorter[i]).catalog is Ok implies position(
                declared,
                shorter[i].locale,
            ) != k by {
            assert(shorter[i] == candidates[i]);
        }
        law_rejected_languages_keep_their_last_good_catalog(declared, catalogs, sources, shorter, k);
    } else {
        assert forall|i: int|
            0 <= i < shorter.len() && i != j && (#[trigger] shorter[i]).catalog is Ok implies position(
                declared,
                shorter[i].locale,
            ) != position(declared, shorter[j].locale) by {
            assert(shorter[i] == candidates[i]);
        }
        assert(shorter[j] == candidates[j]);
        law_accepted_language_is_published(declared, catalogs, sources, shorter, j);
        match last.catalog {
            Ok(snapshot) => {
                let pos = position(declared, last.locale);
                lemma_position_exists(declared, last.locale);
                assert(pos != k);
                if prev.1[pos] != sources_view(last.sources@) {
                    assert(prev.0.update(pos, *snapshot)[k] == prev.0[k]);
                    assert(prev.1.update(pos, sources_view(last.sources@))[k] == prev.1[k]);
                }
            },
            Err(_) => {},
        }
    }
}

/// `update` reports `candidate`: `Loaded` for an accepted language, otherwise
/// `Rejected` with the language, the definition's `path` and the diagnostic.
pub open spec fn reports<C: FluentCatalog>(
    update: CatalogUpdate<C>,
    candidate: Candidate<C>,
    path: Seq<char>,
) -> bool {
    match candidate.catalog {
        Ok(_) => update == CatalogUpdate::<C>::Loaded { locale: candidate.locale },
        Err(error) => match update {
            CatalogUpdate::Rejected { locale, path: p, error: e } => locale == Some(candidate.locale)
                && p@ == path && e@ == error@,
            _ => false,
        },
    }
}

/// Apply one aggregate load: publish each accepted language (keeping unchanged
/// snapshots), leave rejected languages at their last good catalog, and report
/// every language in order.
pub fn apply_candidates<C: FluentCatalog>(
    localization: &mut Localization<C>,
    candidates: &[Candidate<C>],
    path: &str,
) -> (r: Vec<CatalogUpdate<C>>)
    requires
        old(localization).valid(),
        forall|i: int|
            0 <= i < candidates@.len() ==> declares(
                old(localization).declared(),
                #[trigger] candidates@[i].locale,
            ),
    ensures
        final(localization).valid(),
        final(localization).declared() == old(localization).declared(),
        final(localization).active_index() == old(localization).active_index(),
        (final(localization).catalogs(), final(localization).sources()) == after_candidates(
            old(localization).declared(),
            old(localization).catalogs(),
            old(localization).sources(),
            candidates@,
        ),
        r@.len() == candidates@.len(),
        forall|i: int| 0 <= i < candidates@.len() ==> reports(#[trigger] r@[i], candidates@[i], path@),
{
    let mut updates: Vec<CatalogUpdate<C>> = Vec::new();
    let mut i: usize = 0;
    proof {
        assert(candidates@.subrange(0, 0) =~= Seq::<Candidate<C>>::empty());
    }
    while i < candidates.len()
        invariant
            i <= candidates@.len(),
            localization.valid(),
            localization.declared() == old(localization).declared(),
            localization.active_index() == old(localization).active_index(),
            forall|k: int|
                0 <= k < candidates@.len() ==> declares(
                    old(localization).declared(),
                    #[trigger] candidates@[k].locale,
                ),
            (localization.catalogs(), localization.sources()) == after_candidates(
                old(localization).declared(),
                old(localization).catalogs(),
                old(localization).sources(),
                candidates@.subrange(0, i as int),
            ),
            updates@.len() == i,
            forall|k: int| 0 <= k < i ==> reports(#[trigger] updates@[k], candidates@[k], path@),
        decreases candidates@.len() - i,
    {
        let candidate = &candidates[i];
        let locale = candidate.locale;
        proof {
            assert(candidates@.subrange(0, i + 1).drop_last() =~= candidates@.subrange(0, i as int));
        }
        match &candidate.catalog {
            Ok(snapshot) => {
                localization.publish(locale, share(snapshot), candidate.sources.as_slice());
                updates.push(CatalogUpdate::Loaded { locale });
            },
            Err(error) => {
                updates.push(
                    CatalogUpdate::Rejected {
                        locale: Some(locale),
                        path: path.to_owned(),
                        error: error.clone(),
                    },
                );
            },
        }
        i = i + 1;
    }
    proof {
        assert(candidates@.subrange(0, i as int) =~= candidates@);
    }
    updates
}

/// Report an aggregate failure (definition or address) without replacing data.
pub fn aggregate_failure<C: FluentCatalog>(path: &str, error: &str) -> (r: CatalogUpdate<C>)
    ensures
        r matches CatalogUpdate::Rejected { locale, path: p, error: e } && locale is None && p@
            == path@ && e@ == error@,
{
    CatalogUpdate::Rejected { locale: None, path: path.to_owned(), error: error.to_owned() }
}

} // verus!
