//! Names: the physical name under which a container is kept, and the one
//! path component that is let through from a header when its artifact is
//! restored to disk.

use crate::sdk::SdkError;
use vstd::prelude::*;
use vstd::string::StrSliceExecFns;
use vstd::string::StringExecFns;

verus! {

/// What every stored name ends in.
pub const STORED_SUFFIX: &'static str = ".enc";

/// A digit or one of `a` to `f`.
pub open spec fn is_lower_hex(c: char) -> bool {
    ('0' <= c && c <= '9') || ('a' <= c && c <= 'f')
}

/// The hyphenated lower-case text of a version 4 UUID: 36 characters in
/// groups of 8, 4, 4, 4 and 12 hexadecimal digits, the third group starting
/// with the version `4`, the fourth with one of `8`, `9`, `a`, `b` for the
/// variant.
pub open spec fn is_uuid_v4_text(s: Seq<char>) -> bool {
    &&& s.len() == 36
    &&& forall|i: int|
        0 <= i < 36 ==> if i == 8 || i == 13 || i == 18 || i == 23 {
            s[i] == '-'
        } else {
            is_lower_hex(#[trigger] s[i])
        }
    &&& s[14] == '4'
    &&& (s[19] == '8' || s[19] == '9' || s[19] == 'a' || s[19] == 'b')
}

/// A stored name: the text of a version 4 UUID, then `.enc`.
pub open spec fn is_stored_name(s: Seq<char>) -> bool {
    &&& s.len() == 40
    &&& is_uuid_v4_text(s.subrange(0, 36))
    &&& s.subrange(36, 40) == seq!['.', 'e', 'n', 'c']
}

/// Calls `Uuid::new_v4` of the `uuid` crate and formats the result with
/// `to_string`.
///
/// Trusted: the text is the hyphenated lower-case form, with the version
/// and variant that `new_v4` sets. Nothing else is known of the digits,
/// which are random.
#[verifier::external_body]
fn random_uuid_text() -> (text: String)
    ensures
        is_uuid_v4_text(text@),
{
    uuid::Uuid::new_v4().to_string()
}

/// A fresh name for a container: `<uuid-v4>.enc`. It is drawn at random and
/// depends on nothing that the caller supplies.
pub fn fresh_stored_name() -> (name: String)
    ensures
        is_stored_name(name@),
{
    let id = random_uuid_text();
    let ghost text = id@;
    let name = id.concat(STORED_SUFFIX);
    proof {
        reveal_strlit(".enc");
        assert(name@.subrange(0, 36) =~= text);
        assert(name@.subrange(36, 40) =~= seq!['.', 'e', 'n', 'c']);
    }
    name
}

/// What separates the components of a path.
pub const SEPARATOR: char = '/';

/// Index of the last separator in `path`, or -1 where it holds none.
pub open spec fn last_separator(path: Seq<char>) -> int
    decreases path.len(),
{
    if path.len() == 0 {
        -1
    } else if path.last() == SEPARATOR {
        path.len() - 1
    } else {
        last_separator(path.drop_last())
    }
}

/// The final component of `path`, read as a path with `/` between its
/// components: the last component that is neither empty nor `.`. There is
/// none where no such component exists (the empty path, `/`, `.`) and where
/// it is `..`.
pub open spec fn final_component(path: Seq<char>) -> Option<Seq<char>>
    decreases path.len(),
    via final_component_decreases
{
    let cut = last_separator(path);
    let segment = path.subrange(cut + 1, path.len() as int);
    if segment.len() == 0 || segment == seq!['.'] {
        if cut < 0 {
            None
        } else {
            final_component(path.subrange(0, cut))
        }
    } else if segment == seq!['.', '.'] {
        None
    } else {
        Some(segment)
    }
}

#[via_fn]
proof fn final_component_decreases(path: Seq<char>) {
    lemma_last_separator_bounds(path);
}

/// A name that is safe to create inside a directory: one component, not
/// empty, without a separator, and neither `.` nor `..`.
pub open spec fn is_plain_component(name: Seq<char>) -> bool {
    &&& name.len() > 0
    &&& !name.contains(SEPARATOR)
    &&& name != seq!['.']
    &&& name != seq!['.', '.']
}

/// The last separator stands in front of the longest tail without one.
pub proof fn lemma_last_separator(path: Seq<char>, start: int)
    requires
        0 <= start <= path.len(),
        start > 0 ==> path[start - 1] == SEPARATOR,
        forall|i: int| start <= i < path.len() ==> path[i] != SEPARATOR,
    ensures
        last_separator(path) == start - 1,
    decreases path.len() - start,
{
    if start < path.len() {
        lemma_last_separator(path.drop_last(), start);
    }
}

/// Where the last separator stands.
pub proof fn lemma_last_separator_bounds(path: Seq<char>)
    ensures
        -1 <= last_separator(path) < path.len(),
        last_separator(path) >= 0 ==> path[last_separator(path)] == SEPARATOR,
        forall|i: int| last_separator(path) < i < path.len() ==> path[i] != SEPARATOR,
    decreases path.len(),
{
    if path.len() > 0 && path.last() != SEPARATOR {
        let front = path.drop_last();
        lemma_last_separator_bounds(front);
        assert forall|i: int| last_separator(path) < i < path.len() implies path[i]
            != SEPARATOR by {
            if i < front.len() {
                assert(front[i] == path[i]);
            }
        }
    }
}

/// `name` stands in `path` at `start` as a whole component: after a
/// separator or at the start, and before a separator or at the end.
pub open spec fn stands_at(path: Seq<char>, name: Seq<char>, start: int) -> bool {
    &&& 0 <= start && start + name.len() <= path.len()
    &&& path.subrange(start, start + name.len()) == name
    &&& start > 0 ==> path[start - 1] == SEPARATOR
    &&& start + name.len() < path.len() ==> path[start + name.len()] == SEPARATOR
}

/// The final component of any path is one plain component, and it is one
/// of the components that the path is made of.
pub proof fn lemma_final_component_is_plain(path: Seq<char>)
    requires
        final_component(path) is Some,
    ensures
        is_plain_component(final_component(path)->0),
        exists|start: int| stands_at(path, final_component(path)->0, start),
    decreases path.len(),
{
    lemma_last_separator_bounds(path);
    let cut = last_separator(path);
    let segment = path.subrange(cut + 1, path.len() as int);
    if segment.len() == 0 || segment == seq!['.'] {
        let front = path.subrange(0, cut);
        lemma_final_component_is_plain(front);
        let name = final_component(front)->0;
        let start = choose|start: int| stands_at(front, name, start);
        assert(path.subrange(start, start + name.len()) =~= front.subrange(
            start,
            start + name.len(),
        ));
        assert(path[cut] == SEPARATOR);
        assert(start > 0 ==> path[start - 1] == front[start - 1]);
        assert(start + name.len() < front.len() ==> path[start + name.len()] == front[start
            + name.len()]);
        assert(stands_at(path, name, start));
        assert(final_component(path) == Some(name));
    } else {
        assert forall|i: int| 0 <= i < segment.len() implies segment[i] != SEPARATOR by {
            assert(segment[i] == path[cut + 1 + i]);
        }
        assert(path.subrange(cut + 1, cut + 1 + segment.len()) =~= segment);
        assert(stands_at(path, segment, cut + 1));
        assert(final_component(path) == Some(segment));
    }
}

/// `parent`, a separator, and `name`: where an artifact is restored to.
pub open spec fn join(parent: Seq<char>, name: Seq<char>) -> Seq<char> {
    parent + seq![SEPARATOR] + name
}

/// Restoring stays inside the directory it was pointed at: whatever file
/// name a header carries, if it has a final component, then the path of
/// that component in `parent` has `parent` in front of its last separator
/// and the component as its own final component.
pub proof fn lemma_restored_path_stays_inside(parent: Seq<char>, original: Seq<char>)
    requires
        final_component(original) is Some,
    ensures
        ({
            let name = final_component(original)->0;
            let target = join(parent, name);
            &&& last_separator(target) == parent.len()
            &&& target.subrange(0, last_separator(target)) == parent
            &&& final_component(target) == Some(name)
        }),
{
    lemma_final_component_is_plain(original);
    let name = final_component(original)->0;
    let target = join(parent, name);
    assert forall|i: int| parent.len() + 1 <= i < target.len() implies target[i]
        != SEPARATOR by {
        assert(target[i] == name[i - parent.len() - 1]);
    }
    let first = parent.len() as int + 1;
    lemma_last_separator(target, first);
    assert(target.subrange(0, parent.len() as int) =~= parent);
    assert(target.subrange(first, target.len() as int) =~= name);
}

/// The characters of `text`, in order.
fn collect_chars(text: &str) -> (chars: Vec<char>)
    ensures
        chars@ == text@,
{
    let mut chars: Vec<char> = Vec::new();
    for c in it: text.chars()
        invariant
            chars@ == it.seq().take(it.index()),
            it.seq() == text@,
    {
        chars.push(c);
    }
    chars
}

/// Reduces the file name that a header carries to its final component,
/// so that restoring cannot leave the directory it was pointed at. A name
/// without a final component is refused.
pub fn sanitize_filename(name: &str) -> (r: Result<String, SdkError>)
    ensures
        match r {
            Ok(component) => final_component(name@) == Some(component@),
            Err(e) => final_component(name@) is None && e == SdkError::InvalidState,
        },
{
    let chars = collect_chars(name);
    let mut end: usize = chars.len();
    proof {
        assert(name@.subrange(0, end as int) =~= name@);
    }
    loop
        invariant
            chars@ == name@,
            end <= chars@.len(),
            final_component(name@) == final_component(name@.subrange(0, end as int)),
        decreases end,
    {
        let ghost path = name@.subrange(0, end as int);
        let mut start: usize = end;
        while start > 0 && chars[start - 1] != SEPARATOR
            invariant
                chars@ == name@,
                start <= end <= chars@.len(),
                forall|i: int| start <= i < end ==> chars@[i] != SEPARATOR,
            decreases start,
        {
            start = start - 1;
        }
        proof {
            lemma_last_separator(path, start as int);
            assert(path.subrange(start as int, end as int) =~= name@.subrange(
                start as int,
                end as int,
            ));
        }
        let ghost segment = name@.subrange(start as int, end as int);
        let len = end - start;
        let dot = len == 1 && chars[start] == '.';
        let dots = len == 2 && chars[start] == '.' && chars[start + 1] == '.';
        proof {
            assert(segment.len() == len);
            if len >= 1 {
                assert(segment[0] == chars@[start as int]);
            }
            if len >= 2 {
                assert(segment[1] == chars@[start + 1]);
            }
            assert(dot <==> segment =~= seq!['.']);
            assert(dots <==> segment =~= seq!['.', '.']);
        }
        if len == 0 || dot {
            if start == 0 {
                return Err(SdkError::InvalidState);
            }
            proof {
                assert(path.subrange(0, start - 1) =~= name@.subrange(0, start - 1));
            }
            end = start - 1;
        } else if dots {
            return Err(SdkError::InvalidState);
        } else {
            let component = name.substring_char(start, end);
            return Ok(String::from_str(component));
        }
    }
}

} // verus!
