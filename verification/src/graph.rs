//! Package sets read from `cargo tree` output, kept in sorted order.
use vstd::prelude::*;
use crate::matrix::PackageRecord;
use crate::text::{chars_of, lines, split_lines, split_words, string_of, words};

verus! {

/// Lexicographic order on character sequences (code point order, which is also
/// the byte order of their UTF-8 encodings).
pub open spec fn seq_lt(a: Seq<char>, b: Seq<char>) -> bool
    decreases a.len(),
{
    if a.len() == 0 {
        b.len() > 0
    } else if b.len() == 0 {
        false
    } else if a[0] != b[0] {
        a[0] < b[0]
    } else {
        seq_lt(a.drop_first(), b.drop_first())
    }
}

/// Order on `(name, version)` pairs: by name, then by version.
pub open spec fn pair_lt(x: (Seq<char>, Seq<char>), y: (Seq<char>, Seq<char>)) -> bool {
    seq_lt(x.0, y.0) || (x.0 == y.0 && seq_lt(x.1, y.1))
}

pub proof fn lemma_seq_lt_irreflexive(a: Seq<char>)
    ensures
        !seq_lt(a, a),
    decreases a.len(),
{
    if a.len() > 0 {
        lemma_seq_lt_irreflexive(a.drop_first());
    }
}

pub proof fn lemma_seq_lt_transitive(a: Seq<char>, b: Seq<char>, c: Seq<char>)
    requires
        seq_lt(a, b),
        seq_lt(b, c),
    ensures
        seq_lt(a, c),
    decreases a.len(),
{
    if a.len() > 0 && b.len() > 0 && c.len() > 0 && a[0] == b[0] && b[0] == c[0] {
        lemma_seq_lt_transitive(a.drop_first(), b.drop_first(), c.drop_first());
    }
}

pub proof fn lemma_seq_lt_total(a: Seq<char>, b: Seq<char>)
    ensures
        seq_lt(a, b) || seq_lt(b, a) || a == b,
    decreases a.len(),
{
    if a.len() > 0 && b.len() > 0 && a[0] == b[0] {
        lemma_seq_lt_total(a.drop_first(), b.drop_first());
        if a.drop_first() == b.drop_first() {
            assert(a =~= seq![a[0]] + a.drop_first());
            assert(b =~= seq![b[0]] + b.drop_first());
        }
    } else if a.len() == 0 && b.len() == 0 {
        assert(a =~= b);
    }
}

pub proof fn lemma_pair_lt_order(x: (Seq<char>, Seq<char>), y: (Seq<char>, Seq<char>), z: (Seq<char>, Seq<char>))
    ensures
        !pair_lt(x, x),
        pair_lt(x, y) && pair_lt(y, z) ==> pair_lt(x, z),
        pair_lt(x, y) || pair_lt(y, x) || x == y,
        pair_lt(x, y) ==> !pair_lt(y, x),
{
    lemma_seq_lt_irreflexive(x.0);
    lemma_seq_lt_irreflexive(x.1);
    lemma_seq_lt_total(x.0, y.0);
    lemma_seq_lt_total(x.1, y.1);
    if seq_lt(x.0, y.0) && seq_lt(y.0, x.0) {
        lemma_seq_lt_transitive(x.0, y.0, x.0);
    }
    if seq_lt(x.1, y.1) && seq_lt(y.1, x.1) {
        lemma_seq_lt_transitive(x.1, y.1, x.1);
    }
    if pair_lt(x, y) && pair_lt(y, z) {
        if seq_lt(x.0, y.0) && seq_lt(y.0, z.0) {
            lemma_seq_lt_transitive(x.0, y.0, z.0);
        }
        if x.0 == y.0 && y.0 == z.0 && seq_lt(x.1, y.1) && seq_lt(y.1, z.1) {
            lemma_seq_lt_transitive(x.1, y.1, z.1);
        }
    }
}

/// Strictly increasing, hence without duplicates.
pub open spec fn strictly_sorted(v: Seq<(Seq<char>, Seq<char>)>) -> bool {
    forall|i: int, j: int| 0 <= i < j < v.len() ==> pair_lt(#[trigger] v[i], #[trigger] v[j])
}

pub open spec fn pairs_view(v: Seq<(String, String)>) -> Seq<(Seq<char>, Seq<char>)> {
    v.map_values(|p: (String, String)| (p.0@, p.1@))
}

fn chars_lt(a: &[char], b: &[char]) -> (r: bool)
    ensures
        r == seq_lt(a@, b@),
{
    let mut i: usize = 0;
    proof {
        assert(a@.subrange(0, a@.len() as int) =~= a@);
        assert(b@.subrange(0, b@.len() as int) =~= b@);
    }
    while i < a.len() && i < b.len() && a[i] == b[i]
        invariant
            i <= a@.len(),
            i <= b@.len(),
            seq_lt(a@, b@) == seq_lt(a@.subrange(i as int, a@.len() as int), b@.subrange(
                i as int,
                b@.len() as int,
            )),
        decreases a@.len() - i,
    {
        proof {
            let x = a@.subrange(i as int, a@.len() as int);
            let y = b@.subrange(i as int, b@.len() as int);
            assert(x.drop_first() =~= a@.subrange(i + 1, a@.len() as int));
            assert(y.drop_first() =~= b@.subrange(i + 1, b@.len() as int));
        }
        i = i + 1;
    }
    proof {
        assert(a@.subrange(0, a@.len() as int) =~= a@);
        assert(b@.subrange(0, b@.len() as int) =~= b@);
    }
    proof {
        let x = a@.subrange(i as int, a@.len() as int);
        let y = b@.subrange(i as int, b@.len() as int);
        if i < a@.len() && i < b@.len() {
            assert(x[0] == a@[i as int] && y[0] == b@[i as int]);
        }
    }
    if i == a.len() {
        i < b.len()
    } else if i == b.len() {
        false
    } else {
        a[i] < b[i]
    }
}

fn pair_less(x: &(String, String), y: &(String, String)) -> (r: bool)
    ensures
        r == pair_lt((x.0@, x.1@), (y.0@, y.1@)),
{
    let x0 = chars_of(x.0.as_str());
    let y0 = chars_of(y.0.as_str());
    if chars_lt(x0.as_slice(), y0.as_slice()) {
        return true;
    }
    if !(x.0 == y.0) {
        return false;
    }
    let x1 = chars_of(x.1.as_str());
    let y1 = chars_of(y.1.as_str());
    chars_lt(x1.as_slice(), y1.as_slice())
}

/// Insert a pair into a strictly sorted set.
pub fn insert_sorted(set: &mut Vec<(String, String)>, item: (String, String))
    requires
        strictly_sorted(pairs_view(old(set)@)),
    ensures
        strictly_sorted(pairs_view(final(set)@)),
        pairs_view(final(set)@).to_set() == pairs_view(old(set)@).to_set().insert(
            (item.0@, item.1@),
        ),
{
    let ghost v = pairs_view(set@);
    let ghost it = (item.0@, item.1@);
    let mut i: usize = 0;
    loop
        invariant
            i <= set@.len(),
            v == pairs_view(set@),
            it == (item.0@, item.1@),
            forall|k: int| 0 <= k < i ==> pair_lt(#[trigger] v[k], it),
        ensures
            i <= set@.len(),
            forall|k: int| 0 <= k < i ==> pair_lt(#[trigger] v[k], it),
            i < set@.len() ==> !pair_lt(v[i as int], it),
        decreases set@.len() - i,
    {
        if i >= set.len() {
            break;
        }
        let less = pair_less(&set[i], &item);
        assert(v[i as int] == (set@[i as int].0@, set@[i as int].1@));
        if !less {
            break;
        }
        i = i + 1;
    }
    if i < set.len() && set[i].0 == item.0 && set[i].1 == item.1 {
        proof {
            assert(v[i as int] == it);
            assert(v.to_set().insert(it) =~= v.to_set());
        }
        return;
    }
    proof {
        if i < v.len() {
            lemma_pair_lt_order(v[i as int], it, it);
            assert(pair_lt(it, v[i as int]));
        }
    }
    set.insert(i, item);
    proof {
        let w = pairs_view(set@);
        assert(w =~= v.insert(i as int, it));
        assert forall|a: int, b: int| 0 <= a < b < w.len() implies pair_lt(#[trigger] w[a], #[trigger] w[b]) by {
            if b < i {
            } else if a < i && b == i {
            } else if a < i && b > i {
                assert(w[b] == v[b - 1]);
                if b - 1 > i {
                    lemma_pair_lt_order(it, v[i as int], v[b - 1]);
                }
                lemma_pair_lt_order(w[a], it, v[b - 1]);
            } else if a == i {
                assert(w[b] == v[b - 1]);
                if b - 1 > i {
                    lemma_pair_lt_order(it, v[i as int], v[b - 1]);
                }
            } else {
                assert(w[a] == v[a - 1] && w[b] == v[b - 1]);
            }
        }
        assert forall|p| w.to_set().contains(p) <==> v.to_set().insert(it).contains(p) by {
            if w.to_set().contains(p) {
                let k = choose|k: int| 0 <= k < w.len() && w[k] == p;
                if k < i {
                    assert(v[k] == p);
                } else if k > i {
                    assert(v[k - 1] == p);
                }
            }
            if v.to_set().contains(p) {
                let k = choose|k: int| 0 <= k < v.len() && v[k] == p;
                if k < i {
                    assert(w[k] == p);
                } else {
                    assert(w[k + 1] == p);
                }
            }
            if p == it {
                assert(w[i as int] == it);
            }
        }
        assert(w.to_set() =~= v.to_set().insert(it));
    }
}

/// What one line of `cargo tree --format {p}` output names: the package name
/// (first word) and version (second word without its `v`).
pub open spec fn tree_line(line: Seq<char>) -> Result<(Seq<char>, Seq<char>), Seq<char>> {
    let w = words(line);
    if w.len() == 0 {
        Err("missing package name in cargo tree"@)
    } else if w.len() < 2 || w[1].len() == 0 || w[1][0] != 'v' {
        Err("missing package version in cargo tree"@)
    } else {
        Ok((w[0], w[1].drop_first()))
    }
}

/// The packages that the lines name, in order, or the first line's diagnostic.
pub open spec fn tree_pairs(ls: Seq<Seq<char>>) -> Result<Seq<(Seq<char>, Seq<char>)>, Seq<char>>
    decreases ls.len(),
{
    if ls.len() == 0 {
        Ok(seq![])
    } else {
        match tree_pairs(ls.drop_last()) {
            Err(e) => Err(e),
            Ok(prev) => match tree_line(ls.last()) {
                Err(e) => Err(e),
                Ok(p) => Ok(prev.push(p)),
            },
        }
    }
}

fn parse_tree_line(line: &[char]) -> (r: Result<(String, String), String>)
    ensures
        match tree_line(line@) {
            Ok(p) => r matches Ok(q) && q.0@ == p.0 && q.1@ == p.1,
            Err(e) => r matches Err(f) && f@ == e,
        },
{
    let w = split_words(line);
    let ghost wv = words(line@);
    proof {
        assert(w@.len() == wv.len());
        reveal_strlit("missing package name in cargo tree");
        reveal_strlit("missing package version in cargo tree");
    }
    if w.len() == 0 {
        return Err(string_of(chars_of("missing package name in cargo tree").as_slice()));
    }
    if w.len() < 2 || w[1].len() == 0 || w[1][0] != 'v' {
        proof {
            if w@.len() >= 2 {
                assert(w@[1]@ == wv[1]);
            }
        }
        return Err(string_of(chars_of("missing package version in cargo tree").as_slice()));
    }
    proof {
        assert(w@[0]@ == wv[0]);
        assert(w@[1]@ == wv[1]);
    }
    let name = string_of(w[0].as_slice());
    let version_chars = &w[1];
    let mut version = String::new();
    let mut j: usize = 1;
    while j < version_chars.len()
        invariant
            1 <= j <= version_chars@.len(),
            version@ == version_chars@.subrange(1, j as int),
        decreases version_chars@.len() - j,
    {
        crate::text::push_char(&mut version, version_chars[j]);
        j = j + 1;
        proof {
            assert(version@ =~= version_chars@.subrange(1, j as int));
        }
    }
    proof {
        assert(version@ =~= wv[1].drop_first());
    }
    Ok((name, version))
}

/// The set of `(name, version)` packages named by `cargo tree` output, sorted.
///
/// # Errors
/// A line without a name, or without a `v`-prefixed version.
pub fn parse_dependency_tree(text: &str) -> (r: Result<Vec<(String, String)>, String>)
    ensures
        match tree_pairs(lines(text@)) {
            Ok(ps) => r matches Ok(v) && strictly_sorted(pairs_view(v@)) && pairs_view(v@).to_set()
                == ps.to_set(),
            Err(e) => r matches Err(f) && f@ == e,
        },
{
    let chars = chars_of(text);
    let ls = split_lines(chars.as_slice());
    let ghost lv = lines(text@);
    let mut set: Vec<(String, String)> = Vec::new();
    let mut i: usize = 0;
    proof {
        assert(lv.subrange(0, 0) =~= Seq::<Seq<char>>::empty());
        assert(pairs_view(set@) =~= Seq::<(Seq<char>, Seq<char>)>::empty());
        assert(pairs_view(set@).to_set() =~= Seq::<(Seq<char>, Seq<char>)>::empty().to_set());
    }
    while i < ls.len()
        invariant
            i <= ls@.len(),
            ls@.map_values(|v: Vec<char>| v@) == lv,
            lv == lines(text@),
            tree_pairs(lv.subrange(0, i as int)) is Ok,
            strictly_sorted(pairs_view(set@)),
            pairs_view(set@).to_set() == tree_pairs(lv.subrange(0, i as int))->Ok_0.to_set(),
        decreases ls@.len() - i,
    {
        proof {
            assert(lv.subrange(0, i + 1).drop_last() =~= lv.subrange(0, i as int));
            assert(lv.subrange(0, i + 1).last() == ls@[i as int]@);
        }
        let pair = parse_tree_line(ls[i].as_slice());
        match pair {
            Err(e) => {
                proof {
                    let sub = lv.subrange(0, i + 1);
                    assert(tree_line(sub.last()) is Err);
                    assert(tree_pairs(sub) == Err::<Seq<(Seq<char>, Seq<char>)>, Seq<char>>(e@));
                    lemma_tree_pairs_error(lv, i as int + 1);
                    assert(tree_pairs(lv) == Err::<Seq<(Seq<char>, Seq<char>)>, Seq<char>>(e@));
                    assert(lv == lines(text@));
                }
                return Err(e);
            },
            Ok(p) => {
                let ghost prev = tree_pairs(lv.subrange(0, i as int))->Ok_0;
                insert_sorted(&mut set, p);
                proof {
                    prev.lemma_push_to_set_commute((p.0@, p.1@));
                }
            },
        }
        i = i + 1;
    }
    proof {
        assert(lv.subrange(0, i as int) =~= lv);
    }
    Ok(set)
}

/// An official package that the consumer's graph resolves, by name and version.
pub open spec fn in_family(p: PackageRecord, active: Seq<(Seq<char>, Seq<char>)>) -> bool {
    &&& p.name is Some
    &&& p.version is Some
    &&& active.contains((p.name->0@, p.version->0@))
}

pub open spec fn names_view(v: Seq<String>) -> Seq<Seq<char>> {
    v.map_values(|n: String| n@)
}

/// Strictly increasing names, hence without duplicates.
pub open spec fn names_sorted(v: Seq<Seq<char>>) -> bool {
    forall|i: int, j: int| 0 <= i < j < v.len() ==> seq_lt(#[trigger] v[i], #[trigger] v[j])
}

fn contains_pair(set: &[(String, String)], name: &String, version: &String) -> (r: bool)
    ensures
        r == pairs_view(set@).contains((name@, version@)),
{
    let ghost v = pairs_view(set@);
    let mut i: usize = 0;
    while i < set.len()
        invariant
            i <= set@.len(),
            v == pairs_view(set@),
            forall|k: int| 0 <= k < i ==> v[k] != (name@, version@),
        decreases set@.len() - i,
    {
        assert(v[i as int] == (set@[i as int].0@, set@[i as int].1@));
        if set[i].0 == *name && set[i].1 == *version {
            return true;
        }
        i = i + 1;
    }
    false
}

/// The names of the official packages that the consumer's graph resolves at
/// their listed version, sorted and without duplicates: the release family
/// whose versions are pinned.
pub fn release_family(official: &[&PackageRecord], active: &[(String, String)]) -> (r: Vec<String>)
    requires
        forall|i: int| 0 <= i < official@.len() ==> (#[trigger] official@[i]).name is Some
            && official@[i].version is Some,
    ensures
        names_sorted(names_view(r@)),
        forall|n: Seq<char>|
            #[trigger] names_view(r@).contains(n) <==> exists|i: int|
                0 <= i < official@.len() && in_family(*official@[i], pairs_view(active@))
                    && (#[trigger] official@[i]).name->0@ == n,
{
    let ghost act = pairs_view(active@);
    let mut set: Vec<(String, String)> = Vec::new();
    let mut i: usize = 0;
    proof {
        assert(pairs_view(set@) =~= Seq::<(Seq<char>, Seq<char>)>::empty());
    }
    while i < official.len()
        invariant
            i <= official@.len(),
            act == pairs_view(active@),
            forall|k: int| 0 <= k < official@.len() ==> (#[trigger] official@[k]).name is Some
                && official@[k].version is Some,
            strictly_sorted(pairs_view(set@)),
            forall|k: int| 0 <= k < set@.len() ==> (#[trigger] set@[k]).1@ == Seq::<char>::empty(),
            forall|n: Seq<char>|
                #[trigger] pairs_view(set@).to_set().contains((n, Seq::<char>::empty())) <==> exists|k: int|
                    0 <= k < i && in_family(*official@[k], act) && (#[trigger] official@[k]).name->0@
                        == n,
        decreases official@.len() - i,
    {
        let p = official[i];
        let name = match &p.name {
            Some(n) => n,
            None => {
                return Vec::new();
            },
        };
        let version = match &p.version {
            Some(v) => v,
            None => {
                return Vec::new();
            },
        };
        let ghost before = pairs_view(set@);
        if contains_pair(active, name, version) {
            insert_sorted(&mut set, (name.clone(), String::new()));
            proof {
                assert forall|k: int| 0 <= k < set@.len() implies (#[trigger] set@[k]).1@ == Seq::<char>::empty() by {
                    assert(pairs_view(set@).to_set().contains(pairs_view(set@)[k]));
                    assert(pairs_view(set@)[k] == (set@[k].0@, set@[k].1@));
                    if pairs_view(set@)[k] != (name@, Seq::<char>::empty()) {
                        assert(before.to_set().contains(pairs_view(set@)[k]));
                        let m = choose|m: int| 0 <= m < before.len() && before[m] == pairs_view(set@)[k];
                    }
                }
            }
        }
        proof {
            assert forall|n: Seq<char>|
                #[trigger] pairs_view(set@).to_set().contains((n, Seq::<char>::empty())) <==> exists|k: int|
                    0 <= k < i + 1 && in_family(*official@[k], act) && (#[trigger] official@[k]).name->0@
                        == n by {
                if exists|k: int|
                    0 <= k < i + 1 && in_family(*official@[k], act) && (#[trigger] official@[k]).name->0@ == n {
                    let k = choose|k: int|
                        0 <= k < i + 1 && in_family(*official@[k], act) && (#[trigger] official@[k]).name->0@ == n;
                    if k < i {
                    }
                }
            }
        }
        i = i + 1;
    }
    let mut r: Vec<String> = Vec::new();
    let mut j: usize = 0;
    while j < set.len()
        invariant
            j <= set@.len(),
            r@.len() == j,
            forall|k: int| 0 <= k < j ==> (#[trigger] r@[k])@ == set@[k].0@,
        decreases set@.len() - j,
    {
        r.push(set[j].0.clone());
        j = j + 1;
    }
    proof {
        let names = names_view(r@);
        let pv = pairs_view(set@);
        assert forall|a: int, b: int| 0 <= a < b < names.len() implies seq_lt(#[trigger] names[a], #[trigger] names[b]) by {
            assert(pair_lt(pv[a], pv[b]));
            assert(pv[a].1 == pv[b].1);
            lemma_seq_lt_irreflexive(pv[a].1);
        }
        assert forall|n: Seq<char>| #[trigger] names.contains(n) <==> pv.to_set().contains((n, Seq::<char>::empty())) by {
            if names.contains(n) {
                let k = choose|k: int| 0 <= k < names.len() && names[k] == n;
                assert(pv[k] == (n, Seq::<char>::empty()));
            }
            if pv.to_set().contains((n, Seq::<char>::empty())) {
                let k = choose|k: int| 0 <= k < pv.len() && pv[k] == (n, Seq::<char>::empty());
                assert(names[k] == n);
            }
        }
    }
    r
}

/// An error on some line is the error of the whole output.
proof fn lemma_tree_pairs_error(ls: Seq<Seq<char>>, n: int)
    requires
        0 <= n <= ls.len(),
        tree_pairs(ls.subrange(0, n)) is Err,
    ensures
        tree_pairs(ls) == tree_pairs(ls.subrange(0, n)),
    decreases ls.len() - n,
{
    if n < ls.len() {
        assert(ls.subrange(0, n + 1).drop_last() =~= ls.subrange(0, n));
        lemma_tree_pairs_error(ls, n + 1);
    } else {
        assert(ls.subrange(0, n) =~= ls);
    }
}

} // verus!
