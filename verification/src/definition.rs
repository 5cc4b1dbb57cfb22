//! Validate a generated provider's immutable definition against build metadata.
use vstd::prelude::*;
use vstd::utf8::{decode_utf8, valid_utf8};
use crate::addresses::{law_rooted_paths_differ_from_relative_ones, path_components, same_path};
use crate::text::{push_str, str_equal};

verus! {

/// The top-level entries of a TOML document, or the parser's diagnostic: for
/// each non-empty entry its key and, for a string value, the string.
pub uninterp spec fn toml_top_level(source: Seq<char>) -> Result<
    Seq<(Seq<char>, Option<Seq<char>>)>,
    Seq<char>,
>;

/// The text of top-level TOML entries as `(key, string value)` pairs.
pub open spec fn entries_view(entries: Seq<(String, Option<String>)>) -> Seq<
    (Seq<char>, Option<Seq<char>>),
> {
    entries.map_values(
        |e: (String, Option<String>)|
            (
                e.0@,
                match e.1 {
                    Some(v) => Some(v@),
                    None => None,
                },
            ),
    )
}

/// Keys of a table are unique.
pub open spec fn unique_keys(entries: Seq<(Seq<char>, Option<Seq<char>>)>) -> bool {
    forall|i: int, j: int|
        0 <= i < entries.len() && 0 <= j < entries.len() && i != j ==> #[trigger] entries[i].0
            != #[trigger] entries[j].0
}

/// Decode UTF-8 text with `std::str::from_utf8`. The standard library documents
/// that it fails exactly on bytes that are not valid UTF-8; the wording of the
/// error is left unsaid.
#[verifier::external_body]
fn decode_utf8_text(bytes: &[u8]) -> (r: Result<String, String>)
    ensures
        r is Ok <==> valid_utf8(bytes@),
        r matches Ok(text) ==> text@ == decode_utf8(bytes@),
{
    match std::str::from_utf8(bytes) {
        Ok(text) => Ok(text.to_owned()),
        Err(error) => Err(error.to_string()),
    }
}

/// Parse a TOML document with `toml_edit::DocumentMut::from_str` and list the
/// root table's non-empty entries in order, with `Item::as_str` of each value.
/// The result is a function of the source text, named [`toml_top_level`]; the
/// root table is an index map, so its keys are unique.
#[verifier::external_body]
fn parse_toml_entries(source: &str) -> (r: Result<Vec<(String, Option<String>)>, String>)
    ensures
        match r {
            Ok(entries) => toml_top_level(source@) == Ok::<
                Seq<(Seq<char>, Option<Seq<char>>)>,
                Seq<char>,
            >(entries_view(entries@)) && unique_keys(entries_view(entries@)),
            Err(error) => toml_top_level(source@) == Err::<
                Seq<(Seq<char>, Option<Seq<char>>)>,
                Seq<char>,
            >(error@),
        },
{
    let document = source.parse::<toml_edit::DocumentMut>().map_err(|error| error.to_string())?;
    Ok(
        document.as_table().iter().map(
            |(key, item)| (key.to_owned(), item.as_str().map(str::to_owned)),
        ).collect(),
    )
}

/// The value stored under `key`: `None` when no entry has it, else the first
/// entry's string value (`None` inside for a non-string value).
pub open spec fn lookup(entries: Seq<(Seq<char>, Option<Seq<char>>)>, key: Seq<char>) -> Option<
    Option<Seq<char>>,
>
    decreases entries.len(),
{
    if entries.len() == 0 {
        None
    } else {
        let prev = lookup(entries.drop_last(), key);
        if prev is Some {
            prev
        } else if entries.last().0 == key {
            Some(entries.last().1)
        } else {
            None
        }
    }
}

/// A key whose value names a directory and is compared as a path:
/// `translations-directory`, or its legacy alias `languages-directory`.
pub open spec fn is_directory_key(key: Seq<char>) -> bool {
    key == "translations-directory"@ || key == "languages-directory"@
}

/// The definition's directory: the value of `translations-directory`, else of
/// its legacy alias `languages-directory`, else `"."` when neither is set.
pub open spec fn directory_value(entries: Seq<(Seq<char>, Option<Seq<char>>)>) -> Option<
    Option<Seq<char>>,
> {
    let main = lookup(entries, "translations-directory"@);
    let legacy = lookup(entries, "languages-directory"@);
    if main is Some {
        main
    } else if legacy is Some {
        legacy
    } else {
        Some(Some("."@))
    }
}

/// The definition sets its directory under a key of its own.
pub open spec fn sets_directory(entries: Seq<(Seq<char>, Option<Seq<char>>)>) -> bool {
    lookup(entries, "translations-directory"@) is Some || lookup(entries, "languages-directory"@) is Some
}

/// The definition sets its directory under both names, which is refused.
pub open spec fn conflicting_directories(entries: Seq<(Seq<char>, Option<Seq<char>>)>) -> bool {
    lookup(entries, "translations-directory"@) is Some && lookup(entries, "languages-directory"@) is Some
}

/// One of the expected fields is the directory.
pub open spec fn expects_directory(expected: Seq<(&str, &str)>) -> bool {
    exists|i: int| 0 <= i < expected.len() && is_directory_key((#[trigger] expected[i]).0@)
}

/// The value the definition gives for an expected key: the directory under
/// either name (or its default), any other key as written.
pub open spec fn field_value(entries: Seq<(Seq<char>, Option<Seq<char>>)>, key: Seq<char>) -> Option<
    Option<Seq<char>>,
> {
    if is_directory_key(key) {
        directory_value(entries)
    } else {
        lookup(entries, key)
    }
}

/// An expected `(key, value)` pair holds in `entries`: the key's value (see
/// [`field_value`]) is a string equal to the expected one, compared as paths
/// for the directory.
pub open spec fn holds(entries: Seq<(Seq<char>, Option<Seq<char>>)>, key: Seq<char>, value: Seq<char>) -> bool {
    match field_value(entries, key) {
        Some(Some(actual)) => if is_directory_key(key) {
            path_components(actual) == path_components(value)
        } else {
            actual == value
        },
        _ => false,
    }
}

/// The definition has exactly the expected field inventory and values. The
/// directory may be written under either name but not both, or left out when
/// its expected value is the default `"."`, in which case one field fewer is
/// present.
pub open spec fn definition_matches(
    entries: Seq<(Seq<char>, Option<Seq<char>>)>,
    expected: Seq<(&str, &str)>,
) -> bool {
    &&& !conflicting_directories(entries)
    &&& entries.len() + (if expects_directory(expected) && !sets_directory(entries) {
        1int
    } else {
        0int
    }) == expected.len()
    &&& forall|i: int| 0 <= i < expected.len() ==> holds(entries, (#[trigger] expected[i]).0@, expected[i].1@)
}

/// A definition whose directory is absolute never matches a relative expected
/// directory: directory values compare as std paths, whose root is a component.
pub proof fn law_absolute_directory_never_matches_relative(
    entries: Seq<(Seq<char>, Option<Seq<char>>)>,
    key: Seq<char>,
    value: Seq<char>,
)
    requires
        is_directory_key(key),
        match field_value(entries, key) {
            Some(Some(actual)) => actual.len() > 0 && actual[0] == '/',
            _ => true,
        },
        !(value.len() > 0 && value[0] == '/'),
    ensures
        !holds(entries, key, value),
{
    match field_value(entries, key) {
        Some(Some(actual)) => law_rooted_paths_differ_from_relative_ones(actual, value),
        _ => {},
    }
}

/// The diagnostic for a changed definition.
pub open spec fn changed_message() -> Seq<char> {
    "localization configuration changed; rebuild required"@
}

/// The value under `key`, as [`lookup`] specifies.
pub fn lookup_exec(entries: &[(String, Option<String>)], key: &str) -> (r: Option<Option<String>>)
    ensures
        match r {
            None => lookup(entries_view(entries@), key@) is None,
            Some(v) => lookup(entries_view(entries@), key@) == Some(
                match v {
                    Some(s) => Some(s@),
                    None => None::<Seq<char>>,
                },
            ),
        },
{
    let ghost view = entries_view(entries@);
    let mut i: usize = 0;
    proof {
        assert(view.subrange(0, 0) =~= Seq::<(Seq<char>, Option<Seq<char>>)>::empty());
    }
    while i < entries.len()
        invariant
            i <= entries@.len(),
            view == entries_view(entries@),
            lookup(view.subrange(0, i as int), key@) is None,
        decreases entries@.len() - i,
    {
        proof {
            assert(view.subrange(0, i + 1).drop_last() =~= view.subrange(0, i as int));
        }
        if str_equal(entries[i].0.as_str(), key) {
            let value = match &entries[i].1 {
                Some(s) => Some(s.clone()),
                None => None,
            };
            proof {
                lemma_lookup_prefix(view, key@, i + 1);
            }
            return Some(value);
        }
        i = i + 1;
    }
    proof {
        assert(view.subrange(0, i as int) =~= view);
    }
    None
}

/// Once a prefix finds the key, longer prefixes find the same value.
proof fn lemma_lookup_prefix(entries: Seq<(Seq<char>, Option<Seq<char>>)>, key: Seq<char>, n: int)
    requires
        0 <= n <= entries.len(),
        lookup(entries.subrange(0, n), key) is Some,
    ensures
        lookup(entries, key) == lookup(entries.subrange(0, n), key),
    decreases entries.len() - n,
{
    if n < entries.len() {
        assert(entries.subrange(0, n + 1).drop_last() =~= entries.subrange(0, n));
        lemma_lookup_prefix(entries, key, n + 1);
    } else {
        assert(entries.subrange(0, n) =~= entries);
    }
}

/// With unique keys, each entry's key finds that entry's value, and a key that
/// no entry has finds nothing.
proof fn lemma_lookup_unique(entries: Seq<(Seq<char>, Option<Seq<char>>)>, key: Seq<char>)
    requires
        unique_keys(entries),
    ensures
        forall|i: int| 0 <= i < entries.len() && entries[i].0 == key ==> lookup(entries, key) == Some(
            entries[i].1,
        ),
        (forall|i: int| 0 <= i < entries.len() ==> entries[i].0 != key) ==> lookup(entries, key) is None,
    decreases entries.len(),
{
    if entries.len() > 0 {
        let shorter = entries.drop_last();
        assert(unique_keys(shorter)) by {
            assert forall|i: int, j: int|
                0 <= i < shorter.len() && 0 <= j < shorter.len() && i != j implies #[trigger] shorter[i].0
                != #[trigger] shorter[j].0 by {
                assert(shorter[i] == entries[i] && shorter[j] == entries[j]);
            }
        }
        lemma_lookup_unique(shorter, key);
        let n = entries.len() - 1;
        if entries[n].0 == key {
            assert forall|i: int| 0 <= i < shorter.len() implies shorter[i].0 != key by {
                assert(shorter[i] == entries[i]);
                assert(entries[i].0 != entries[n].0);
            }
        }
        assert forall|i: int| 0 <= i < entries.len() && entries[i].0 == key implies lookup(entries, key)
            == Some(entries[i].1) by {
            if i < n {
                assert(shorter[i] == entries[i]);
            }
        }
        assert((forall|i: int| 0 <= i < entries.len() ==> entries[i].0 != key) ==> lookup(entries, key)
            is None) by {
            if forall|i: int| 0 <= i < entries.len() ==> entries[i].0 != key {
                assert forall|i: int| 0 <= i < shorter.len() implies shorter[i].0 != key by {
                    assert(shorter[i] == entries[i]);
                }
            }
        }
    }
}

/// Field order does not matter: two definitions holding the same fields, each
/// key once, in any order, match exactly the same expectations.
pub proof fn law_field_order_does_not_matter(
    a: Seq<(Seq<char>, Option<Seq<char>>)>,
    b: Seq<(Seq<char>, Option<Seq<char>>)>,
    expected: Seq<(&str, &str)>,
)
    requires
        unique_keys(a),
        unique_keys(b),
        a.to_multiset() == b.to_multiset(),
    ensures
        definition_matches(a, expected) == definition_matches(b, expected),
{
    broadcast use vstd::seq_lib::group_to_multiset_ensures;

    assert(a.len() == b.len()) by {
        assert(a.len() == a.to_multiset().len());
        assert(b.len() == b.to_multiset().len());
    }
    assert forall|key: Seq<char>| #[trigger] lookup(a, key) == lookup(b, key) by {
        lemma_lookup_unique(a, key);
        lemma_lookup_unique(b, key);
        if exists|i: int| 0 <= i < a.len() && a[i].0 == key {
            let i = choose|i: int| 0 <= i < a.len() && a[i].0 == key;
            assert(a.contains(a[i]));
            assert(a.to_multiset().count(a[i]) > 0);
            assert(b.contains(a[i]));
            let j = choose|j: int| 0 <= j < b.len() && b[j] == a[i];
            assert(b[j].0 == key);
        } else if exists|j: int| 0 <= j < b.len() && b[j].0 == key {
            let j = choose|j: int| 0 <= j < b.len() && b[j].0 == key;
            assert(b.contains(b[j]));
            assert(b.to_multiset().count(b[j]) > 0);
            assert(a.contains(b[j]));
            let i = choose|i: int| 0 <= i < a.len() && a[i] == b[j];
            assert(a[i].0 == key);
        }
    }
    assert forall|k: Seq<char>, v: Seq<char>| holds(a, k, v) == holds(b, k, v) by {
        assert(lookup(a, k) == lookup(b, k));
    }
}

fn is_directory_key_exec(key: &str) -> (r: bool)
    ensures
        r == is_directory_key(key@),
{
    str_equal(key, "translations-directory") || str_equal(key, "languages-directory")
}

/// Check parsed definition entries against the expected fields.
pub fn check_definition(entries: &[(String, Option<String>)], expected: &[(&str, &str)]) -> (r:
    Result<(), String>)
    ensures
        r is Ok <==> definition_matches(entries_view(entries@), expected@),
        r matches Err(e) ==> e@ == changed_message(),
{
    let ghost view = entries_view(entries@);
    let main = lookup_exec(entries, "translations-directory");
    let legacy = lookup_exec(entries, "languages-directory");
    let conflicting = main.is_some() && legacy.is_some();
    let sets = main.is_some() || legacy.is_some();
    let directory: Option<Option<String>> = match main {
        Some(v) => Some(v),
        None => match legacy {
            Some(v) => Some(v),
            None => {
                let mut dot = String::new();
                push_str(&mut dot, ".");
                Some(Some(dot))
            },
        },
    };
    proof {
        reveal_strlit(".");
        assert(match directory {
            Some(Some(d)) => directory_value(view) == Some(Some(d@)),
            Some(None) => directory_value(view) == Some(None::<Seq<char>>),
            None => directory_value(view) is None,
        });
    }
    let mut expects = false;
    let mut k: usize = 0;
    while k < expected.len()
        invariant
            k <= expected@.len(),
            expects == exists|j: int| 0 <= j < k && is_directory_key((#[trigger] expected@[j]).0@),
        decreases expected@.len() - k,
    {
        if is_directory_key_exec(expected[k].0) {
            expects = true;
        }
        k = k + 1;
    }
    assert(expects == expects_directory(expected@));
    let sized = if expects && !sets {
        expected.len() > 0 && entries.len() == expected.len() - 1
    } else {
        entries.len() == expected.len()
    };
    let mut changed = conflicting || !sized;
    let mut i: usize = 0;
    while i < expected.len() && !changed
        invariant
            i <= expected@.len(),
            view == entries_view(entries@),
            match directory {
                Some(Some(d)) => directory_value(view) == Some(Some(d@)),
                Some(None) => directory_value(view) == Some(None::<Seq<char>>),
                None => directory_value(view) is None,
            },
            !changed ==> !conflicting_directories(view),
            !changed ==> view.len() + (if expects_directory(expected@) && !sets_directory(view) {
                1int
            } else {
                0int
            }) == expected@.len(),
            !changed ==> forall|k: int|
                0 <= k < i ==> holds(view, (#[trigger] expected@[k]).0@, expected@[k].1@),
            changed ==> !definition_matches(view, expected@),
        decreases expected@.len() - i,
    {
        let (key, value) = expected[i];
        let ok = if is_directory_key_exec(key) {
            match &directory {
                Some(Some(actual)) => same_path(actual.as_str(), value),
                _ => false,
            }
        } else {
            match lookup_exec(entries, key) {
                Some(Some(actual)) => str_equal(actual.as_str(), value),
                _ => false,
            }
        };
        assert(ok == holds(view, key@, value@));
        if !ok {
            changed = true;
            assert(!holds(view, expected@[i as int].0@, expected@[i as int].1@));
        }
        i = i + 1;
    }
    if changed {
        let mut message = String::new();
        push_str(&mut message, "localization configuration changed; rebuild required");
        return Err(message);
    }
    Ok(())
}

/// Validate the generator's immutable definition at the adapter boundary.
///
/// `expected` comes from build-validated generated metadata. The definition
/// must be UTF-8 TOML whose top-level fields are exactly the expected keys, each
/// with a string value: language codes compare exactly, the directory value
/// compares as a path (accepting redundant separators or a trailing `.`). The
/// directory may be written as `translations-directory` or its legacy alias
/// `languages-directory`, not both, and may be left out to mean `"."`.
/// Comments, whitespace and field order do not matter.
///
/// # Errors
/// Rejects invalid UTF-8 or TOML, missing, extra or non-string fields, and
/// changed values.
pub fn validate_definition(bytes: &[u8], expected: &[(&str, &str)]) -> (r: Result<(), String>)
    ensures
        !valid_utf8(bytes@) ==> r is Err,
        valid_utf8(bytes@) ==> match toml_top_level(decode_utf8(bytes@)) {
            Err(diagnostic) => r == Err::<(), String>(r->Err_0) && r->Err_0@ == diagnostic,
            Ok(entries) => (r is Ok <==> definition_matches(entries, expected@)) && (r matches Err(
                e,
            ) ==> e@ == changed_message()),
        },
{
    let source = decode_utf8_text(bytes)?;
    let entries = parse_toml_entries(source.as_str())?;
    check_definition(entries.as_slice(), expected)
}

} // verus!
