//! Entry-name safety: resolving an untrusted archive entry name into a
//! destination-relative path, rejecting anything that could escape the
//! destination directory.
//!
//! A name is split on separators and its components are normalized with a
//! stack: empty and `.` components disappear, `..` pops, and anything
//! that pops past the root, an absolute name, an embedded NUL, a colon or
//! a platform-reserved device name is rejected.

use vstd::prelude::*;
use vstd::string::StrSliceExecFns;

use crate::errors::ArchiveError;

verus! {

/// Path separators recognized in entry names.
pub open spec fn is_sep(c: char) -> bool {
    c == '/' || c == '\\'
}

/// Case-insensitive match of one character against a lowercase letter.
pub open spec fn ci(c: char, lower: char) -> bool {
    c == lower || c as int + 32 == lower as int
}

/// Whether the component begins with the three-letter device word and is
/// then either finished or followed by an extension.
pub open spec fn matches_device3(c: Seq<char>, a: char, b: char, d: char) -> bool {
    &&& c.len() >= 3
    &&& ci(c[0], a)
    &&& ci(c[1], b)
    &&& ci(c[2], d)
    &&& (c.len() == 3 || c[3] == '.')
}

/// Whether the component begins with a numbered device word (`com1` to
/// `com9`, `lpt1` to `lpt9`) and is then either finished or followed by
/// an extension.
pub open spec fn matches_device4(c: Seq<char>, a: char, b: char, d: char) -> bool {
    &&& c.len() >= 4
    &&& ci(c[0], a)
    &&& ci(c[1], b)
    &&& ci(c[2], d)
    &&& '1' <= c[3] && c[3] <= '9'
    &&& (c.len() == 4 || c[4] == '.')
}

/// Platform-reserved device names, matched case-insensitively on the
/// part before the first dot.
pub open spec fn is_reserved_component(c: Seq<char>) -> bool {
    ||| matches_device3(c, 'c', 'o', 'n')
    ||| matches_device3(c, 'p', 'r', 'n')
    ||| matches_device3(c, 'a', 'u', 'x')
    ||| matches_device3(c, 'n', 'u', 'l')
    ||| matches_device4(c, 'c', 'o', 'm')
    ||| matches_device4(c, 'l', 'p', 't')
}

pub open spec fn is_cur_dir(c: Seq<char>) -> bool {
    c.len() == 1 && c[0] == '.'
}

pub open spec fn is_parent_dir(c: Seq<char>) -> bool {
    c.len() == 2 && c[0] == '.' && c[1] == '.'
}

/// A component that is rejected outright: an embedded NUL, a colon (drive
/// letters, alternate streams) or a reserved device name.
pub open spec fn is_bad_component(c: Seq<char>) -> bool {
    (exists|i: int| 0 <= i < c.len() && (c[i] == ':' || c[i] == '\0'))
        || is_reserved_component(c)
}

/// The components of a name, split on separators, left to right.  An
/// empty name has one empty component; a trailing separator leaves a
/// trailing empty component.
pub open spec fn split_components(s: Seq<char>) -> Seq<Seq<char>>
    decreases s.len(),
{
    if s.len() == 0 {
        seq![Seq::<char>::empty()]
    } else {
        let prev = split_components(s.drop_last());
        if is_sep(s.last()) {
            prev.push(Seq::<char>::empty())
        } else {
            prev.update(prev.len() - 1, prev.last().push(s.last()))
        }
    }
}

/// One step of normalization: how a stack of kept components absorbs the
/// next component.
pub open spec fn normalize_step(stack: Seq<Seq<char>>, c: Seq<char>) -> Option<Seq<Seq<char>>> {
    if c.len() == 0 || is_cur_dir(c) {
        Some(stack)
    } else if is_parent_dir(c) {
        if stack.len() == 0 {
            Option::None
        } else {
            Some(stack.drop_last())
        }
    } else if is_bad_component(c) {
        Option::None
    } else {
        Some(stack.push(c))
    }
}

/// Stack normalization of a component list: empty and `.` components
/// disappear, `..` pops, a pop past the root or a bad component rejects
/// the whole name.
pub open spec fn normalize_components(cs: Seq<Seq<char>>) -> Option<Seq<Seq<char>>>
    decreases cs.len(),
{
    if cs.len() == 0 {
        Some(Seq::<Seq<char>>::empty())
    } else {
        match normalize_components(cs.drop_last()) {
            Option::None => Option::None,
            Option::Some(stack) => normalize_step(stack, cs.last()),
        }
    }
}

/// What an entry name resolves to: its normalized components, or nothing
/// when the name is absolute or rejected.
pub open spec fn sanitize_spec(name: Seq<char>) -> Option<Seq<Seq<char>>> {
    if name.len() > 0 && is_sep(name[0]) {
        Option::None
    } else {
        normalize_components(split_components(name))
    }
}

/// A component that can never move a path out of its root: non-empty, not
/// `.` or `..`, free of separators, NUL, colons and device names.
pub open spec fn is_component_safe(c: Seq<char>) -> bool {
    &&& c.len() > 0
    &&& !is_cur_dir(c)
    &&& !is_parent_dir(c)
    &&& !is_bad_component(c)
    &&& forall|i: int| 0 <= i < c.len() ==> !is_sep(#[trigger] c[i])
}

pub open spec fn components_safe(cs: Seq<Seq<char>>) -> bool {
    forall|k: int| 0 <= k < cs.len() ==> is_component_safe(#[trigger] cs[k])
}

/// The components joined with `/` between them.
pub open spec fn join_components(cs: Seq<Seq<char>>) -> Seq<char>
    decreases cs.len(),
{
    if cs.len() == 0 {
        Seq::<char>::empty()
    } else if cs.len() == 1 {
        cs[0]
    } else {
        join_components(cs.drop_last()) + seq!['/'] + cs.last()
    }
}

proof fn lemma_split_components_nonempty(s: Seq<char>)
    ensures
        split_components(s).len() >= 1,
    decreases s.len(),
{
    if s.len() > 0 {
        lemma_split_components_nonempty(s.drop_last());
    }
}

/// No split component contains a separator.
proof fn lemma_split_components_no_seps(s: Seq<char>)
    ensures
        forall|k: int, i: int|
            0 <= k < split_components(s).len() && 0 <= i < split_components(s)[k].len()
                ==> !is_sep(#[trigger] split_components(s)[k][i]),
    decreases s.len(),
{
    if s.len() > 0 {
        lemma_split_components_no_seps(s.drop_last());
        lemma_split_components_nonempty(s.drop_last());
    }
}

/// Once normalization has rejected the components seen so far, no later
/// characters can repair the name.
proof fn lemma_normalize_still_none(s: Seq<char>, i: int)
    requires
        0 <= i <= s.len(),
        normalize_components(split_components(s.subrange(0, i)).drop_last()) is None,
    ensures
        normalize_components(split_components(s)) is None,
    decreases s.len() - i,
{
    lemma_split_components_nonempty(s.subrange(0, i));
    if i == s.len() {
        assert(s.subrange(0, i) =~= s);
        assert(normalize_components(split_components(s)) is None);
    } else {
        let pre = s.subrange(0, i);
        let ext = s.subrange(0, i + 1);
        assert(ext.drop_last() =~= pre);
        lemma_split_components_nonempty(ext);
        if is_sep(ext.last()) {
            assert(split_components(ext).drop_last() =~= split_components(pre));
        } else {
            let prev = split_components(pre);
            assert(split_components(ext).drop_last() =~= prev.update(
                prev.len() - 1,
                prev.last().push(ext.last()),
            ).drop_last());
            assert(prev.update(prev.len() - 1, prev.last().push(ext.last())).drop_last()
                =~= prev.drop_last());
        }
        lemma_normalize_still_none(s, i + 1);
    }
}

/// Every component that survives normalization is safe, provided none of
/// the input components held a separator.
proof fn lemma_normalize_components_safe(cs: Seq<Seq<char>>)
    requires
        forall|k: int, i: int|
            0 <= k < cs.len() && 0 <= i < cs[k].len() ==> !is_sep(#[trigger] cs[k][i]),
        normalize_components(cs) is Some,
    ensures
        components_safe(normalize_components(cs)->0),
    decreases cs.len(),
{
    if cs.len() > 0 {
        lemma_normalize_components_safe(cs.drop_last());
    }
}

/// The path-safety guarantee: whatever `sanitize_entry_name` accepts is a
/// list of plain, root-bound components — none empty, none `.` or `..`,
/// none holding a separator, a NUL, a colon or a device name.  Writing
/// them below a destination directory stays inside it.
pub proof fn lemma_sanitize_safe(name: Seq<char>, cs: Seq<Seq<char>>)
    requires
        sanitize_spec(name) == Some(cs),
    ensures
        components_safe(cs),
{
    lemma_split_components_no_seps(name);
    lemma_normalize_components_safe(split_components(name));
}

fn ci_exec(c: char, lower: char) -> (r: bool)
    ensures
        r == ci(c, lower),
{
    c == lower || (c as u32) + 32 == (lower as u32)
}

fn comp_matches_device3(c: &Vec<char>, a: char, b: char, d: char) -> (r: bool)
    ensures
        r == matches_device3(c@, a, b, d),
{
    c.len() >= 3 && ci_exec(c[0], a) && ci_exec(c[1], b) && ci_exec(c[2], d) && (c.len() == 3
        || c[3] == '.')
}

fn comp_matches_device4(c: &Vec<char>, a: char, b: char, d: char) -> (r: bool)
    ensures
        r == matches_device4(c@, a, b, d),
{
    c.len() >= 4 && ci_exec(c[0], a) && ci_exec(c[1], b) && ci_exec(c[2], d) && ('1' <= c[3]
        && c[3] <= '9') && (c.len() == 4 || c[4] == '.')
}

fn comp_is_bad(c: &Vec<char>) -> (r: bool)
    ensures
        r == is_bad_component(c@),
{
    let mut i: usize = 0;
    while i < c.len()
        invariant
            i <= c@.len(),
            forall|j: int| 0 <= j < i ==> !(c@[j] == ':' || c@[j] == '\0'),
        decreases c@.len() - i,
    {
        if c[i] == ':' || c[i] == '\0' {
            return true;
        }
        i += 1;
    }
    comp_matches_device3(c, 'c', 'o', 'n') || comp_matches_device3(c, 'p', 'r', 'n')
        || comp_matches_device3(c, 'a', 'u', 'x') || comp_matches_device3(c, 'n', 'u', 'l')
        || comp_matches_device4(c, 'c', 'o', 'm') || comp_matches_device4(c, 'l', 'p', 't')
}

/// Fold the finished component `cur`, which is `name[start..end]`, into
/// the stack of kept components.
fn apply_component(
    name: &str,
    stack: &mut Vec<String>,
    cur: &Vec<char>,
    start: usize,
    end: usize,
) -> (r: Result<(), ArchiveError>)
    requires
        start <= end,
        end as int <= name@.len(),
        cur@ == name@.subrange(start as int, end as int),
    ensures
        r is Ok <==> normalize_step(old(stack).deep_view(), cur@) is Some,
        r is Ok ==> final(stack).deep_view() == normalize_step(old(stack).deep_view(), cur@)->0,
        r is Err ==> r->Err_0 == ArchiveError::PathTraversal,
{
    if cur.len() == 0 || (cur.len() == 1 && cur[0] == '.') {
        assert(stack.deep_view() =~= old(stack).deep_view());
        Ok(())
    } else if cur.len() == 2 && cur[0] == '.' && cur[1] == '.' {
        if stack.len() == 0 {
            Err(ArchiveError::PathTraversal)
        } else {
            stack.pop();
            assert(stack.deep_view() =~= old(stack).deep_view().drop_last());
            Ok(())
        }
    } else if comp_is_bad(cur) {
        Err(ArchiveError::PathTraversal)
    } else {
        let comp = name.substring_char(start, end).to_owned();
        stack.push(comp);
        assert(stack.deep_view() =~= old(stack).deep_view().push(cur@));
        Ok(())
    }
}

/// Resolve an untrusted entry name into the components of a
/// destination-relative path, or fail when the name is absolute or could
/// escape the destination.
pub fn sanitize_entry_name(name: &str) -> (r: Result<Vec<String>, ArchiveError>)
    ensures
        r is Ok <==> sanitize_spec(name@) is Some,
        r is Ok ==> r->Ok_0.deep_view() == sanitize_spec(name@)->0,
        r is Err ==> r->Err_0 == ArchiveError::PathTraversal,
{
    let n = name.unicode_len();
    if n > 0 {
        let first = name.get_char(0);
        if first == '/' || first == '\\' {
            return Err(ArchiveError::PathTraversal);
        }
    }
    let mut stack: Vec<String> = Vec::new();
    let mut cur: Vec<char> = Vec::new();
    let mut cur_start: usize = 0;
    let mut i: usize = 0;
    proof {
        assert(name@.subrange(0, 0) =~= Seq::<char>::empty());
        assert(cur@ =~= name@.subrange(0, 0));
        assert(split_components(Seq::<char>::empty()).drop_last() =~= Seq::<Seq<char>>::empty());
        assert(stack.deep_view() =~= Seq::<Seq<char>>::empty());
    }
    while i < n
        invariant
            n == name@.len(),
            cur_start <= i <= n,
            !(name@.len() > 0 && is_sep(name@[0])),
            cur@ == name@.subrange(cur_start as int, i as int),
            split_components(name@.subrange(0, i as int)).last() == cur@,
            normalize_components(split_components(name@.subrange(0, i as int)).drop_last())
                == Some(stack.deep_view()),
        decreases n - i,
    {
        let ch = name.get_char(i);
        proof {
            lemma_split_components_nonempty(name@.subrange(0, i as int));
            assert(name@.subrange(0, i + 1).drop_last() =~= name@.subrange(0, i as int));
            assert(name@.subrange(0, i + 1).last() == name@[i as int]);
        }
        if ch == '/' || ch == '\\' {
            let ghost pre_stack = stack.deep_view();
            match apply_component(name, &mut stack, &cur, cur_start, i) {
                Ok(_) => {},
                Err(e) => {
                    proof {
                        assert(split_components(name@.subrange(0, i + 1)).drop_last()
                            =~= split_components(name@.subrange(0, i as int)));
                        assert(normalize_components(
                            split_components(name@.subrange(0, i + 1)).drop_last(),
                        ) is None);
                        lemma_normalize_still_none(name@, i + 1);
                    }
                    return Err(e);
                },
            }
            proof {
                assert(split_components(name@.subrange(0, i + 1)).drop_last()
                    =~= split_components(name@.subrange(0, i as int)));
                assert(normalize_components(
                    split_components(name@.subrange(0, i + 1)).drop_last(),
                ) == Some(stack.deep_view()));
                assert(split_components(name@.subrange(0, i + 1)).last() =~= Seq::<char>::empty());
                assert(name@.subrange(i + 1, i + 1) =~= Seq::<char>::empty());
            }
            cur = Vec::new();
            cur_start = i + 1;
        } else {
            cur.push(ch);
            proof {
                let prev = split_components(name@.subrange(0, i as int));
                assert(split_components(name@.subrange(0, i + 1)) =~= prev.update(
                    prev.len() - 1,
                    prev.last().push(name@[i as int]),
                ));
                assert(split_components(name@.subrange(0, i + 1)).drop_last() =~= prev.drop_last());
                assert(cur@ =~= name@.subrange(cur_start as int, i + 1));
            }
        }
        i += 1;
    }
    proof {
        assert(name@.subrange(0, n as int) =~= name@);
        lemma_split_components_nonempty(name@);
    }
    match apply_component(name, &mut stack, &cur, cur_start, n) {
        Ok(_) => Ok(stack),
        Err(e) => Err(e),
    }
}

/// Join path components with `/` into one relative path string.
pub fn join_path(comps: &Vec<String>) -> (r: String)
    ensures
        r@ == join_components(comps.deep_view()),
{
    let mut out = String::new();
    let mut k: usize = 0;
    proof {
        assert(comps.deep_view().subrange(0, 0) =~= Seq::<Seq<char>>::empty());
    }
    while k < comps.len()
        invariant
            k <= comps@.len(),
            comps.deep_view().len() == comps@.len(),
            out@ == join_components(comps.deep_view().subrange(0, k as int)),
        decreases comps@.len() - k,
    {
        proof {
            reveal_strlit("/");
            assert(comps.deep_view().subrange(0, k + 1).drop_last() =~= comps.deep_view().subrange(
                0,
                k as int,
            ));
            assert(comps.deep_view().subrange(0, k + 1).last() == comps.deep_view()[k as int]);
        }
        if k > 0 {
            out.append("/");
            proof {
                assert("/"@ =~= seq!['/']);
            }
        }
        out.append(comps[k].as_str());
        proof {
            if k == 0 {
                assert(out@ =~= comps.deep_view()[0]);
                assert(comps.deep_view().subrange(0, 1) =~= seq![comps.deep_view()[0]]);
            }
        }
        k += 1;
    }
    proof {
        assert(comps.deep_view().subrange(0, comps.deep_view().len() as int)
            =~= comps.deep_view());
    }
    out
}

} // verus!
