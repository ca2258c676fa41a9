//! Paths as byte strings: suffixes, joining, and the way up to the parent
//! of a path in canonical form.

use vstd::prelude::*;

verus! {

/// The byte that separates the components of a path.
pub const SEPARATOR: u8 = '/' as u8;

/// `tail` is what `text` ends with.
pub open spec fn is_suffix(text: Seq<u8>, tail: Seq<u8>) -> bool {
    tail.len() <= text.len() && text.subrange(text.len() - tail.len(), text.len() as int) == tail
}

/// The path starts at the filesystem root.
pub open spec fn is_rooted(path: Seq<u8>) -> bool {
    path.len() > 0 && path[0] == SEPARATOR
}

/// `rel` taken relative to `base`: a rooted `rel` stands for itself, any
/// other is appended to `base`, after a separator where `base` lacks one.
pub open spec fn joined(base: Seq<u8>, rel: Seq<u8>) -> Seq<u8> {
    if is_rooted(rel) {
        rel
    } else if base.len() == 0 || base.last() == SEPARATOR {
        base + rel
    } else {
        base.push(SEPARATOR) + rel
    }
}

/// Length of `path` without its trailing separators.
pub open spec fn trimmed_len(path: Seq<u8>) -> nat
    decreases path.len(),
{
    if path.len() > 0 && path.last() == SEPARATOR {
        trimmed_len(path.drop_last())
    } else {
        path.len()
    }
}

/// Length of `path` without its trailing bytes that are no separators.
pub open spec fn stem_len(path: Seq<u8>) -> nat
    decreases path.len(),
{
    if path.len() > 0 && path.last() != SEPARATOR {
        stem_len(path.drop_last())
    } else {
        path.len()
    }
}

/// The path without its last component, or `None` where `path` names no
/// component at all (it is empty, or the root itself).
///
/// This is a cut in the text. It is the directory that the filesystem has
/// above `path` only where `path` is in canonical form: with `..` or a
/// link in it, the text says nothing of what lies above. The searches
/// therefore go up from canonical paths alone.
///
/// Trailing separators do not count. The parent of a single component
/// below the root is the root; that of a lone relative component is the
/// empty path.
pub open spec fn parent_of(path: Seq<u8>) -> Option<Seq<u8>> {
    let end = trimmed_len(path);
    if end == 0 {
        None
    } else {
        let stem = stem_len(path.take(end as int));
        let cut = trimmed_len(path.take(stem as int));
        if stem == 0 {
            Some(Seq::empty())
        } else if cut == 0 {
            Some(seq![SEPARATOR])
        } else {
            Some(path.take(cut as int))
        }
    }
}

/// What is left of `path` after `levels` cuts of its last component, where
/// that many can be made: for a path in canonical form, the directory
/// `levels` steps above it.
pub open spec fn ancestor(path: Seq<u8>, levels: nat) -> Option<Seq<u8>>
    decreases levels,
{
    if levels == 0 {
        Some(path)
    } else {
        match parent_of(path) {
            Some(up) => ancestor(up, (levels - 1) as nat),
            None => None,
        }
    }
}

/// What is left of a path without its trailing separators ends in a byte
/// that is no separator, and only separators were dropped.
pub proof fn lemma_trimmed_len(path: Seq<u8>)
    ensures
        trimmed_len(path) <= path.len(),
        trimmed_len(path) > 0 ==> path[trimmed_len(path) - 1] != SEPARATOR,
        forall|i: int| trimmed_len(path) <= i < path.len() ==> path[i] == SEPARATOR,
    decreases path.len(),
{
    if path.len() > 0 && path.last() == SEPARATOR {
        let shorter = path.drop_last();
        lemma_trimmed_len(shorter);
        assert forall|i: int| trimmed_len(path) <= i < path.len() implies path[i] == SEPARATOR by {
            if i < shorter.len() {
                assert(shorter[i] == path[i]);
            }
        }
    }
}

/// What is left of a path without its last component ends in a
/// separator, and no separator was dropped.
pub proof fn lemma_stem_len(path: Seq<u8>)
    ensures
        stem_len(path) <= path.len(),
        stem_len(path) > 0 ==> path[stem_len(path) - 1] == SEPARATOR,
        forall|i: int| stem_len(path) <= i < path.len() ==> path[i] != SEPARATOR,
    decreases path.len(),
{
    if path.len() > 0 && path.last() != SEPARATOR {
        let shorter = path.drop_last();
        lemma_stem_len(shorter);
        assert forall|i: int| stem_len(path) <= i < path.len() implies path[i] != SEPARATOR by {
            if i < shorter.len() {
                assert(shorter[i] == path[i]);
            }
        }
    }
}

/// Going up makes a path strictly shorter, so no walk towards the root can
/// go on for ever.
pub proof fn lemma_parent_is_shorter(path: Seq<u8>)
    ensures
        parent_of(path) matches Some(dir) ==> dir.len() < path.len(),
{
    let end = trimmed_len(path);
    lemma_trimmed_len(path);
    if end > 0 {
        let head = path.take(end as int);
        lemma_stem_len(head);
        let stem = stem_len(head);
        lemma_trimmed_len(path.take(stem as int));
        assert(head[end - 1] == path[end - 1]);
        assert(stem < end);
    }
}

/// `head` is what `path` begins with, up to the end of a component.
pub open spec fn is_above(head: Seq<u8>, path: Seq<u8>) -> bool {
    &&& head.len() <= path.len()
    &&& path.take(head.len() as int) == head
    &&& head.len() == path.len() || head.last() == SEPARATOR || path[head.len() as int]
        == SEPARATOR
}

/// The parent of a rooted path is rooted too, and the path begins with it.
pub proof fn lemma_parent_is_above(path: Seq<u8>)
    requires
        is_rooted(path),
    ensures
        parent_of(path) matches Some(dir) ==> is_rooted(dir) && is_above(dir, path),
{
    let end = trimmed_len(path);
    lemma_trimmed_len(path);
    if end > 0 {
        let head = path.take(end as int);
        lemma_stem_len(head);
        let stem = stem_len(head);
        lemma_trimmed_len(path.take(stem as int));
        let cut = trimmed_len(path.take(stem as int));
        assert(head[end - 1] == path[end - 1]);
        if stem == 0 {
            assert(head[0] == path[0]);
        } else if cut == 0 {
            assert(path.take(1) =~= seq![SEPARATOR]);
        } else {
            assert(path.take(cut as int)[0] == path[0]);
            assert(path.take(cut as int).take(cut as int) =~= path.take(cut as int));
            assert(path.take(stem as int)[cut as int] == path[cut as int]);
        }
    }
}

/// Every directory above a rooted path is rooted, and the path begins
/// with it.
pub proof fn lemma_ancestor_is_above(path: Seq<u8>, levels: nat)
    requires
        is_rooted(path),
    ensures
        ancestor(path, levels) matches Some(dir) ==> is_rooted(dir) && is_above(dir, path),
    decreases levels,
{
    if levels == 0 {
        assert(path.take(path.len() as int) =~= path);
    } else {
        lemma_parent_is_above(path);
        if let Some(up) = parent_of(path) {
            lemma_ancestor_is_above(up, (levels - 1) as nat);
            if let Some(dir) = ancestor(up, (levels - 1) as nat) {
                assert(path.take(dir.len() as int) =~= up.take(dir.len() as int));
                if dir.len() < up.len() {
                    assert(dir.last() == SEPARATOR || path[dir.len() as int] == up[dir.len() as int]);
                }
            }
        }
    }
}

/// Every directory above a path is strictly shorter than the path.
pub proof fn lemma_ancestor_is_shorter(path: Seq<u8>, levels: nat)
    requires
        levels > 0,
    ensures
        ancestor(path, levels) matches Some(dir) ==> dir.len() < path.len(),
    decreases levels,
{
    lemma_parent_is_shorter(path);
    if let Some(up) = parent_of(path) {
        if levels > 1 {
            lemma_ancestor_is_shorter(up, (levels - 1) as nat);
        }
    }
}

/// Two directories at different heights above a path differ.
pub proof fn lemma_ancestors_differ(path: Seq<u8>, lower: nat, higher: nat)
    requires
        lower < higher,
        ancestor(path, higher) is Some,
    ensures
        ancestor(path, lower) is Some,
        ancestor(path, lower).unwrap().len() > ancestor(path, higher).unwrap().len(),
    decreases lower,
{
    if lower == 0 {
        lemma_ancestor_is_shorter(path, higher);
    } else {
        let up = parent_of(path).unwrap();
        lemma_ancestors_differ(up, (lower - 1) as nat, (higher - 1) as nat);
    }
}

/// The two byte strings are the same.
pub fn same_bytes(a: &[u8], b: &[u8]) -> (r: bool)
    ensures
        r == (a@ == b@),
{
    if a.len() != b.len() {
        return false;
    }
    let mut i: usize = 0;
    while i < a.len()
        invariant
            a.len() == b.len(),
            i <= a.len(),
            forall|j: int| 0 <= j < i ==> a@[j] == b@[j],
        decreases a.len() - i,
    {
        if a[i] != b[i] {
            return false;
        }
        i += 1;
    }
    assert(a@ =~= b@);
    true
}

/// Does `text` end with `tail`?
pub fn ends_with(text: &[u8], tail: &[u8]) -> (r: bool)
    ensures
        r == is_suffix(text@, tail@),
{
    if tail.len() > text.len() {
        return false;
    }
    let start: usize = text.len() - tail.len();
    let mut i: usize = 0;
    while i < tail.len()
        invariant
            tail.len() <= text.len(),
            start == text.len() - tail.len(),
            i <= tail.len(),
            forall|j: int| 0 <= j < i ==> text@[start + j] == tail@[j],
        decreases tail.len() - i,
    {
        if text[start + i] != tail[i] {
            assert(text@.subrange(start as int, text@.len() as int)[i as int] != tail@[i as int]);
            return false;
        }
        i += 1;
    }
    assert(text@.subrange(start as int, text@.len() as int) =~= tail@);
    true
}

/// Appends the bytes of `more` to `buffer`.
pub fn append(buffer: &mut Vec<u8>, more: &[u8])
    ensures
        final(buffer)@ == old(buffer)@ + more@,
{
    let mut i: usize = 0;
    while i < more.len()
        invariant
            i <= more.len(),
            buffer@ == old(buffer)@ + more@.take(i as int),
        decreases more.len() - i,
    {
        buffer.push(more[i]);
        assert(more@.take(i + 1) =~= more@.take(i as int).push(more@[i as int]));
        i += 1;
    }
    assert(more@.take(more@.len() as int) =~= more@);
}

/// A copy of the first `len` bytes of `bytes`.
pub fn prefix(bytes: &[u8], len: usize) -> (r: Vec<u8>)
    requires
        len <= bytes.len(),
    ensures
        r@ == bytes@.take(len as int),
{
    let mut r: Vec<u8> = Vec::new();
    let mut i: usize = 0;
    while i < len
        invariant
            i <= len <= bytes.len(),
            r@ == bytes@.take(i as int),
        decreases len - i,
    {
        r.push(bytes[i]);
        assert(bytes@.take(i + 1) =~= bytes@.take(i as int).push(bytes@[i as int]));
        i += 1;
    }
    r
}

/// `rel` taken relative to `base`.
pub fn join(base: &[u8], rel: &[u8]) -> (r: Vec<u8>)
    ensures
        r@ == joined(base@, rel@),
{
    let mut r: Vec<u8> = Vec::new();
    if rel.len() > 0 && rel[0] == SEPARATOR {
        append(&mut r, rel);
        assert(r@ =~= rel@);
        return r;
    }
    append(&mut r, base);
    assert(r@ =~= base@);
    if base.len() > 0 && base[base.len() - 1] != SEPARATOR {
        r.push(SEPARATOR);
    }
    append(&mut r, rel);
    r
}

/// The directory that holds the last component of `path`.
pub fn parent(path: &[u8]) -> (r: Option<Vec<u8>>)
    ensures
        match r {
            Some(dir) => parent_of(path@) == Some(dir@),
            None => parent_of(path@) is None,
        },
{
    assert(path@.take(path@.len() as int) =~= path@);
    let end = trim(path, path.len());
    if end == 0 {
        return None;
    }
    let mut stem: usize = end;
    while stem > 0 && path[stem - 1] != SEPARATOR
        invariant
            stem <= end <= path.len(),
            stem_len(path@.take(end as int)) == stem_len(path@.take(stem as int)),
        decreases stem,
    {
        assert(path@.take(stem as int).drop_last() =~= path@.take(stem - 1));
        stem -= 1;
    }
    let cut = trim(path, stem);
    if stem == 0 {
        Some(Vec::new())
    } else if cut == 0 {
        let mut root: Vec<u8> = Vec::new();
        root.push(SEPARATOR);
        assert(root@ =~= seq![SEPARATOR]);
        Some(root)
    } else {
        Some(prefix(path, cut))
    }
}

/// Length of the first `len` bytes of `path` without their trailing
/// separators.
fn trim(path: &[u8], len: usize) -> (r: usize)
    requires
        len <= path.len(),
    ensures
        r <= len,
        r == trimmed_len(path@.take(len as int)),
{
    let mut end: usize = len;
    while end > 0 && path[end - 1] == SEPARATOR
        invariant
            end <= len <= path.len(),
            trimmed_len(path@.take(len as int)) == trimmed_len(path@.take(end as int)),
        decreases end,
    {
        assert(path@.take(end as int).drop_last() =~= path@.take(end - 1));
        end -= 1;
    }
    end
}

} // verus!
