//! Asset-address safety for arbitrary providers; no filesystem discovery policy.
//!
//! Addresses are `/`-separated relative paths. A path is split into segments at
//! every `/`; empty segments and `.` segments are no-ops, `..` climbs out of the
//! directory and a leading `/` makes the path absolute.
use vstd::prelude::*;
use crate::text::{
    chars_equal, chars_of, has_char, has_char_exec, lemma_pieces_free_of_sep, lemma_pieces_nonempty,
    pieces, push_str, split_chars,
};

verus! {

/// The segments of `s` between `/` separators, read from the left.
/// `"a//b/"` has the segments `"a"`, `""`, `"b"` and `""`.
pub open spec fn segments(s: Seq<char>) -> Seq<Seq<char>> {
    pieces(s, '/')
}

/// The segment `..`, which climbs to the parent directory.
pub open spec fn parent_dir() -> Seq<char> {
    seq!['.', '.']
}

/// The segment `.`, which names the current directory.
pub open spec fn current_dir() -> Seq<char> {
    seq!['.']
}

/// Characters that would escape the path syntax of an asset address.
pub open spec fn is_forbidden_char(c: char) -> bool {
    c == '\\' || c == '#' || c == ':'
}

pub open spec fn has_forbidden_char(s: Seq<char>) -> bool {
    exists|i: int| 0 <= i < s.len() && is_forbidden_char(s[i])
}

pub open spec fn has_parent_segment(segs: Seq<Seq<char>>) -> bool {
    exists|k: int| 0 <= k < segs.len() && segs[k] == parent_dir()
}

/// A segment that names a file or directory (not empty, not `.`, not `..`).
pub open spec fn is_normal_segment(seg: Seq<char>) -> bool {
    seg.len() > 0 && seg != current_dir() && seg != parent_dir()
}

pub open spec fn has_normal_segment(segs: Seq<Seq<char>>) -> bool {
    exists|k: int| 0 <= k < segs.len() && is_normal_segment(segs[k])
}

/// A nonempty relative address below its base: no backslash, `#` or `:`, not
/// absolute, and no `..` segment.
pub open spec fn is_relative_address(s: Seq<char>) -> bool {
    &&& s.len() > 0
    &&& !has_forbidden_char(s)
    &&& s[0] != '/'
    &&& !has_parent_segment(segments(s))
}

/// A relative address that is one directory name.
pub open spec fn is_locale_name(s: Seq<char>) -> bool {
    &&& is_relative_address(s)
    &&& !has_char(s, '/')
    &&& s != current_dir()
}

/// A relative address that names a file: it does not end in `/` and has a
/// segment other than empty and `.`.
pub open spec fn names_file(s: Seq<char>) -> bool {
    &&& is_relative_address(s)
    &&& s.last() != '/'
    &&& has_normal_segment(segments(s))
}

/// Why an address was refused.
#[derive(Debug, PartialEq, Eq)]
pub enum AddressError {
    /// Empty, absolute, escaping (`..`) or holding a backslash, `#` or `:`;
    /// carries the refused text.
    InvalidAddress(String),
    /// A locale must be exactly one directory name.
    NotOneDirectory,
    /// A module must name a file.
    NotAFile,
}

/// A string as `{:?}` writes it: in double quotes, with quotes, backslashes and
/// unprintable characters escaped.
pub uninterp spec fn debug_string(text: Seq<char>) -> Seq<char>;

/// Write a string with std's `Debug` for `str`. The result is a function of the
/// text, named [`debug_string`].
#[verifier::external_body]
fn debug_quoted(text: &str) -> (r: String)
    ensures
        r@ == debug_string(text@),
{
    format!("{text:?}")
}

impl AddressError {
    /// Human-readable diagnostic.
    pub fn message(&self) -> (r: String)
        ensures
            r@ == match self {
                AddressError::InvalidAddress(text) => "invalid relative catalog asset address: "@
                    + debug_string(text@),
                AddressError::NotOneDirectory => "catalog locale must be one directory name"@,
                AddressError::NotAFile => "catalog module must name a file"@,
            },
    {
        match self {
            AddressError::InvalidAddress(text) => {
                let mut r = String::new();
                push_str(&mut r, "invalid relative catalog asset address: ");
                let quoted = debug_quoted(text.as_str());
                push_str(&mut r, quoted.as_str());
                r
            },
            AddressError::NotOneDirectory => {
                let mut r = String::new();
                push_str(&mut r, "catalog locale must be one directory name");
                r
            },
            AddressError::NotAFile => {
                let mut r = String::new();
                push_str(&mut r, "catalog module must name a file");
                r
            },
        }
    }
}

pub proof fn lemma_segments_nonempty(s: Seq<char>)
    ensures
        segments(s).len() >= 1,
{
    lemma_pieces_nonempty(s, '/');
}

/// What a single left-to-right pass over an address finds.
pub struct AddressScan {
    pub forbidden_char: bool,
    pub parent_segment: bool,
    pub normal_segment: bool,
}

fn is_parent(seg: &Vec<char>) -> (r: bool)
    ensures
        r == (seg@ == parent_dir()),
{
    if seg.len() == 2 && seg[0] == '.' && seg[1] == '.' {
        assert(seg@ =~= parent_dir());
        true
    } else {
        false
    }
}

fn is_normal(seg: &Vec<char>) -> (r: bool)
    ensures
        r == is_normal_segment(seg@),
{
    if seg.len() == 0 {
        false
    } else if seg.len() == 1 && seg[0] == '.' {
        assert(seg@ =~= current_dir());
        false
    } else {
        let p = is_parent(seg);
        if !p && seg.len() == 1 {
            assert(seg@ != current_dir());
        }
        !p
    }
}

proof fn lemma_push_segment(segs: Seq<Seq<char>>, x: Seq<char>)
    ensures
        has_parent_segment(segs.push(x)) == (has_parent_segment(segs) || x == parent_dir()),
        has_normal_segment(segs.push(x)) == (has_normal_segment(segs) || is_normal_segment(x)),
{
    let t = segs.push(x);
    if has_parent_segment(t) {
        let k = choose|k: int| 0 <= k < t.len() && t[k] == parent_dir();
        if k < segs.len() {
            assert(segs[k] == parent_dir());
        }
    }
    if has_parent_segment(segs) {
        let k = choose|k: int| 0 <= k < segs.len() && segs[k] == parent_dir();
        assert(t[k] == parent_dir());
    }
    if x == parent_dir() {
        assert(t[segs.len() as int] == x);
    }
    if has_normal_segment(t) {
        let k = choose|k: int| 0 <= k < t.len() && is_normal_segment(t[k]);
        if k < segs.len() {
            assert(is_normal_segment(segs[k]));
        }
    }
    if has_normal_segment(segs) {
        let k = choose|k: int| 0 <= k < segs.len() && is_normal_segment(segs[k]);
        assert(is_normal_segment(t[k]));
    }
    if is_normal_segment(x) {
        assert(t[segs.len() as int] == x);
    }
}

/// One pass over `s`: forbidden characters, `..` segments and normal segments.
pub fn scan_address(s: &[char]) -> (r: AddressScan)
    ensures
        r.forbidden_char == has_forbidden_char(s@),
        r.parent_segment == has_parent_segment(segments(s@)),
        r.normal_segment == has_normal_segment(segments(s@)),
{
    let mut forbidden = false;
    let mut parent = false;
    let mut normal = false;
    let mut cur: Vec<char> = Vec::new();
    let mut i: usize = 0;
    proof {
        assert(s@.subrange(0, 0) =~= Seq::<char>::empty());
        assert(segments(s@.subrange(0, 0)).drop_last() =~= Seq::<Seq<char>>::empty());
    }
    while i < s.len()
        invariant
            i <= s@.len(),
            segments(s@.subrange(0, i as int)).len() >= 1,
            cur@ == segments(s@.subrange(0, i as int)).last(),
            forbidden == has_forbidden_char(s@.subrange(0, i as int)),
            parent == has_parent_segment(segments(s@.subrange(0, i as int)).drop_last()),
            normal == has_normal_segment(segments(s@.subrange(0, i as int)).drop_last()),
        decreases s@.len() - i,
    {
        let c = s[i];
        let ghost before = s@.subrange(0, i as int);
        let ghost after = s@.subrange(0, i + 1);
        let ghost segs = segments(before);
        proof {
            assert(after.drop_last() =~= before);
            assert(after.last() == c);
            assert(segs =~= segs.drop_last().push(segs.last()));
        }
        if c == '\\' || c == '#' || c == ':' {
            forbidden = true;
        }
        proof {
            if has_forbidden_char(after) {
                let j = choose|j: int| 0 <= j < after.len() && is_forbidden_char(after[j]);
                if j < i {
                    assert(before[j] == after[j]);
                }
            }
            if has_forbidden_char(before) {
                let j = choose|j: int| 0 <= j < before.len() && is_forbidden_char(before[j]);
                assert(after[j] == before[j]);
            }
            if is_forbidden_char(c) {
                assert(after[i as int] == c);
            }
        }
        if c == '/' {
            let p = is_parent(&cur);
            let n = is_normal(&cur);
            proof {
                lemma_push_segment(segs.drop_last(), segs.last());
                assert(segments(after) == segs.push(Seq::<char>::empty()));
                assert(segments(after).drop_last() =~= segs);
            }
            parent = parent || p;
            normal = normal || n;
            cur = Vec::new();
            proof {
                assert(cur@ =~= segments(after).last());
            }
        } else {
            cur.push(c);
            proof {
                assert(segments(after) == segs.update(segs.len() - 1, segs.last().push(c)));
                assert(segments(after).drop_last() =~= segs.drop_last());
            }
        }
        i = i + 1;
    }
    let p = is_parent(&cur);
    let n = is_normal(&cur);
    proof {
        let segs = segments(s@.subrange(0, i as int));
        assert(s@.subrange(0, i as int) =~= s@);
        assert(segs =~= segs.drop_last().push(segs.last()));
        lemma_push_segment(segs.drop_last(), segs.last());
        assert(has_forbidden_char(s@) == forbidden);
    }
    AddressScan { forbidden_char: forbidden, parent_segment: parent || p, normal_segment: normal || n }
}

/// The segments of `s`, one `Vec` each.
pub fn split_segments(s: &[char]) -> (r: Vec<Vec<char>>)
    ensures
        r@.map_values(|v: Vec<char>| v@) == segments(s@),
{
    split_chars(s, '/')
}

/// The segments that name something (neither empty nor `.`), in order.
pub open spec fn kept_segments(segs: Seq<Seq<char>>) -> Seq<Seq<char>>
    decreases segs.len(),
{
    if segs.len() == 0 {
        seq![]
    } else {
        let prev = kept_segments(segs.drop_last());
        let g = segs.last();
        if g.len() > 0 && g != current_dir() {
            prev.push(g)
        } else {
            prev
        }
    }
}

/// The components of a path: a leading `/` (root) or a leading `.` segment
/// (current directory), then every segment that is neither empty nor `.`.
/// Two paths are equal when their components are.
pub open spec fn path_components(s: Seq<char>) -> Seq<Seq<char>> {
    let lead = if s.len() > 0 && s[0] == '/' {
        seq![seq!['/']]
    } else if segments(s)[0] == current_dir() {
        seq![current_dir()]
    } else {
        Seq::<Seq<char>>::empty()
    };
    lead + kept_segments(segments(s))
}

/// Kept segments are segments, so they hold no character that no segment holds.
proof fn lemma_kept_free_of(segs: Seq<Seq<char>>, c: char)
    requires
        forall|i: int, j: int| 0 <= i < segs.len() && 0 <= j < segs[i].len() ==> segs[i][j] != c,
    ensures
        forall|i: int, j: int|
            0 <= i < kept_segments(segs).len() && 0 <= j < kept_segments(segs)[i].len()
                ==> kept_segments(segs)[i][j] != c,
    decreases segs.len(),
{
    if segs.len() > 0 {
        let shorter = segs.drop_last();
        assert forall|i: int, j: int| 0 <= i < shorter.len() && 0 <= j < shorter[i].len() implies shorter[i][j]
            != c by {
            assert(shorter[i] == segs[i]);
        }
        lemma_kept_free_of(shorter, c);
        let prev = kept_segments(shorter);
        let cur = kept_segments(segs);
        assert forall|i: int, j: int| 0 <= i < cur.len() && 0 <= j < cur[i].len() implies cur[i][j]
            != c by {
            if i < prev.len() {
                assert(cur[i] == prev[i]);
            } else {
                assert(cur[i] == segs[segs.len() - 1]);
            }
        }
    }
}

/// As for std paths, a path that starts at the root never has the components
/// of one that does not: the root is a component of its own, and no other
/// component is `/`. So an absolute directory never matches a relative one.
pub proof fn law_rooted_paths_differ_from_relative_ones(a: Seq<char>, b: Seq<char>)
    requires
        a.len() > 0 && a[0] == '/',
        !(b.len() > 0 && b[0] == '/'),
    ensures
        path_components(a) != path_components(b),
{
    let root = seq!['/'];
    assert(path_components(a)[0] == root);
    let pb = path_components(b);
    let kept = kept_segments(segments(b));
    lemma_pieces_nonempty(b, '/');
    lemma_pieces_free_of_sep(b, '/');
    lemma_kept_free_of(segments(b), '/');
    if pb.len() > 0 {
        if segments(b)[0] == current_dir() {
            assert(pb =~= seq![current_dir()] + kept);
            assert(pb[0] == current_dir());
            assert(current_dir()[0] != root[0]);
        } else {
            assert(pb =~= kept);
            if kept[0] == root {
                assert(kept[0][0] == '/');
            }
        }
        assert(pb[0] != root);
    }
}

fn is_current(seg: &Vec<char>) -> (r: bool)
    ensures
        r == (seg@ == current_dir()),
{
    if seg.len() == 1 && seg[0] == '.' {
        assert(seg@ =~= current_dir());
        true
    } else {
        false
    }
}

/// The components of `s`, as [`path_components`] specifies.
pub fn components(s: &[char]) -> (r: Vec<Vec<char>>)
    ensures
        r@.map_values(|v: Vec<char>| v@) == path_components(s@),
{
    let segs = split_segments(s);
    let ghost seg_view = segs@.map_values(|v: Vec<char>| v@);
    proof {
        lemma_segments_nonempty(s@);
    }
    let mut r: Vec<Vec<char>> = Vec::new();
    if s.len() > 0 && s[0] == '/' {
        let mut root: Vec<char> = Vec::new();
        root.push('/');
        r.push(root);
        proof {
            assert(r@.map_values(|v: Vec<char>| v@) =~= seq![seq!['/']]);
        }
    } else if is_current(&segs[0]) {
        let mut cur: Vec<char> = Vec::new();
        cur.push('.');
        r.push(cur);
        proof {
            assert(r@.map_values(|v: Vec<char>| v@) =~= seq![current_dir()]);
        }
    } else {
        proof {
            assert(r@.map_values(|v: Vec<char>| v@) =~= Seq::<Seq<char>>::empty());
        }
    }
    let ghost lead = r@.map_values(|v: Vec<char>| v@);
    let mut i: usize = 0;
    proof {
        assert(seg_view.subrange(0, 0) =~= Seq::<Seq<char>>::empty());
        assert(lead + kept_segments(seg_view.subrange(0, 0)) =~= lead);
    }
    while i < segs.len()
        invariant
            i <= segs@.len(),
            seg_view == segs@.map_values(|v: Vec<char>| v@),
            r@.map_values(|v: Vec<char>| v@) == lead + kept_segments(seg_view.subrange(0, i as int)),
        decreases segs@.len() - i,
    {
        let ghost old_r = r@;
        proof {
            assert(seg_view.subrange(0, i + 1).drop_last() =~= seg_view.subrange(0, i as int));
            assert(seg_view.subrange(0, i + 1).last() == segs@[i as int]@);
        }
        if segs[i].len() > 0 && !is_current(&segs[i]) {
            r.push(segs[i].clone());
            proof {
                assert(r@.map_values(|v: Vec<char>| v@) =~= old_r.map_values(|v: Vec<char>| v@).push(
                    segs@[i as int]@,
                ));
            }
        }
        i = i + 1;
    }
    proof {
        assert(seg_view.subrange(0, i as int) =~= seg_view);
    }
    r
}

/// Whether two paths have the same components.
pub fn same_path(a: &str, b: &str) -> (r: bool)
    ensures
        r == (path_components(a@) == path_components(b@)),
{
    let ca = chars_of(a);
    let cb = chars_of(b);
    let x = components(ca.as_slice());
    let y = components(cb.as_slice());
    assert(x@.map_values(|v: Vec<char>| v@) == path_components(a@));
    assert(y@.map_values(|v: Vec<char>| v@) == path_components(b@));
    if x.len() != y.len() {
        proof {
            assert(x@.map_values(|v: Vec<char>| v@).len() != y@.map_values(|v: Vec<char>| v@).len());
        }
        return false;
    }
    let mut i: usize = 0;
    while i < x.len()
        invariant
            x@.len() == y@.len(),
            i <= x@.len(),
            x@.map_values(|v: Vec<char>| v@) == path_components(a@),
            y@.map_values(|v: Vec<char>| v@) == path_components(b@),
            forall|k: int| 0 <= k < i ==> #[trigger] x@[k]@ == y@[k]@,
        decreases x@.len() - i,
    {
        if !chars_equal(x[i].as_slice(), y[i].as_slice()) {
            proof {
                assert(x@.map_values(|v: Vec<char>| v@)[i as int] != y@.map_values(|v: Vec<char>| v@)[i as int]);
                assert(path_components(a@)[i as int] != path_components(b@)[i as int]);
            }
            return false;
        }
        i = i + 1;
    }
    proof {
        assert(x@.map_values(|v: Vec<char>| v@) =~= y@.map_values(|v: Vec<char>| v@));
    }
    true
}

/// Accept a nonempty relative directory address that stays below its base.
pub fn validate_directory(path: &str) -> (r: Result<(), AddressError>)
    ensures
        r is Ok <==> is_relative_address(path@),
        r matches Err(e) ==> e matches AddressError::InvalidAddress(text) && text@ == path@,
{
    let chars = chars_of(path);
    let scan = scan_address(chars.as_slice());
    if chars.len() == 0 || scan.forbidden_char || chars[0] == '/' || scan.parent_segment {
        return Err(AddressError::InvalidAddress(path.to_owned()));
    }
    Ok(())
}

/// Accept a locale directory: a relative address that is one directory name.
pub fn validate_locale(locale: &str) -> (r: Result<(), AddressError>)
    ensures
        r is Ok <==> is_locale_name(locale@),
        !is_relative_address(locale@) ==> (r matches Err(e) && e matches AddressError::InvalidAddress(
            text,
        ) && text@ == locale@),
        is_relative_address(locale@) && !is_locale_name(locale@) ==> r == Err::<(), AddressError>(
            AddressError::NotOneDirectory,
        ),
{
    validate_directory(locale)?;
    let chars = chars_of(locale);
    let dot = chars.len() == 1 && chars[0] == '.';
    if dot {
        assert(chars@ =~= current_dir());
    }
    if has_char_exec(chars.as_slice(), '/') || dot {
        return Err(AddressError::NotOneDirectory);
    }
    Ok(())
}

/// Accept a module path: a relative address that names a file.
pub fn validate_module(module: &str) -> (r: Result<(), AddressError>)
    ensures
        r is Ok <==> names_file(module@),
        !is_relative_address(module@) ==> (r matches Err(e) && e matches AddressError::InvalidAddress(
            text,
        ) && text@ == module@),
        is_relative_address(module@) && !names_file(module@) ==> r == Err::<(), AddressError>(
            AddressError::NotAFile,
        ),
{
    validate_directory(module)?;
    let chars = chars_of(module);
    let scan = scan_address(chars.as_slice());
    if chars[chars.len() - 1] == '/' || !scan.normal_segment {
        return Err(AddressError::NotAFile);
    }
    Ok(())
}

} // verus!
