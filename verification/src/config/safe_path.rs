//! Paths that a configuration names, held inside a directory.
use crate::text;
use vstd::prelude::*;

verus! {

/// The components of a path once `.` and `..` are worked off, behind those
/// that came before. Nothing where `..` would leave the start.
pub open spec fn worked_off(parts: Seq<Seq<char>>, before: Seq<Seq<char>>) -> Option<Seq<Seq<char>>>
    decreases parts.len(),
{
    if parts.len() == 0 {
        Some(before)
    } else {
        let rest = parts.drop_first();
        if parts[0].len() == 0 || parts[0] == "."@ {
            worked_off(rest, before)
        } else if parts[0] == ".."@ {
            if before.len() == 0 {
                None
            } else {
                worked_off(rest, before.drop_last())
            }
        } else {
            worked_off(rest, before.push(parts[0]))
        }
    }
}

/// The components of a path.
pub open spec fn components(path: Seq<char>) -> Option<Seq<Seq<char>>> {
    worked_off(text::split_of(path, '/'), Seq::empty())
}

/// Whether a path begins at the root.
pub open spec fn is_absolute(path: Seq<char>) -> bool {
    path.len() > 0 && path[0] == '/'
}

/// The path that some components make.
pub open spec fn joined(parts: Seq<Seq<char>>) -> Seq<char>
    decreases parts.len(),
{
    if parts.len() == 0 {
        Seq::empty()
    } else if parts.len() == 1 {
        parts[0]
    } else {
        parts[0] + seq!['/'] + joined(parts.drop_first())
    }
}

/// The place that a requested path means: a relative one lies in the
/// directory.
pub open spec fn meant(dir: Seq<char>, requested: Seq<char>) -> Seq<char> {
    if is_absolute(requested) {
        requested
    } else {
        dir + "/"@ + requested
    }
}

/// Whether `inner` begins with all of `outer`.
pub open spec fn begins_with(inner: Seq<Seq<char>>, outer: Seq<Seq<char>>) -> bool {
    outer.len() <= inner.len() && inner.take(outer.len() as int) == outer
}

/// The path that a requested one comes to, where that lies inside the
/// directory.
pub open spec fn contained(dir: Seq<char>, requested: Seq<char>) -> Option<Seq<char>> {
    match (components(dir), components(meant(dir, requested))) {
        (Some(outer), Some(inner)) => if begins_with(inner, outer) && (is_absolute(requested)
            ==> is_absolute(dir)) {
            Some(
                if is_absolute(dir) {
                    "/"@ + joined(inner)
                } else {
                    joined(inner)
                },
            )
        } else {
            None
        },
        _ => None,
    }
}

/// The components of a path.
pub fn split_components(path: &str) -> (out: Option<Vec<String>>)
    ensures
        match out {
            Some(v) => components(path@) == Some(text::texts(v@)),
            None => components(path@) is None,
        },
{
    let parts = text::split(path, '/');
    let ghost all = text::texts(parts@);
    let mut stack: Vec<String> = Vec::new();
    let mut i: usize = 0;
    proof {
        assert(all.skip(0) =~= all);
        assert(text::texts(stack@) =~= Seq::<Seq<char>>::empty());
    }
    while i < parts.len()
        invariant
            i <= parts@.len(),
            all == text::texts(parts@),
            components(path@) == worked_off(all.skip(i as int), text::texts(stack@)),
        decreases parts@.len() - i,
    {
        let ghost before = text::texts(stack@);
        assert(all.skip(i as int)[0] == parts@[i as int]@);
        assert(all.skip(i as int).drop_first() =~= all.skip(i + 1));
        let part = parts[i].as_str();
        if part.is_empty() || text::same(part, ".") {
        } else if text::same(part, "..") {
            if stack.len() == 0 {
                return None;
            }
            let gone = stack.pop();
            assert(text::texts(stack@) =~= before.drop_last());
        } else {
            stack.push(part.to_owned());
            assert(text::texts(stack@) =~= before.push(part@));
        }
        i += 1;
    }
    assert(all.skip(i as int).len() == 0);
    Some(stack)
}

fn join_components(parts: &Vec<String>) -> (out: String)
    ensures
        out@ == joined(text::texts(parts@)),
{
    let ghost all = text::texts(parts@);
    let n: usize = parts.len();
    let mut out = String::new();
    let mut i: usize = 0;
    assert(all.skip(0) =~= all);
    assert(out@ + joined(all) =~= joined(all));
    while i < n
        invariant
            i <= n,
            n == parts@.len(),
            all == text::texts(parts@),
            out@ + joined(all.skip(i as int)) == joined(all),
        decreases n - i,
    {
        let ghost rest = all.skip(i as int);
        let ghost before = out@;
        assert(rest[0] == parts@[i as int]@);
        assert(rest.drop_first() =~= all.skip(i + 1));
        text::push_text(&mut out, parts[i].as_str());
        if i + 1 < n {
            out.push('/');
            assert(before + (rest[0] + seq!['/'] + joined(all.skip(i + 1))) =~= out@ + joined(
                all.skip(i + 1),
            ));
        } else {
            assert(before + rest[0] =~= out@ + joined(all.skip(i + 1)));
        }
        i += 1;
    }
    assert(all.skip(n as int).len() == 0);
    assert(out@ + Seq::<char>::empty() =~= out@);
    out
}

fn starts_at_root(path: &str) -> (b: bool)
    ensures
        b == is_absolute(path@),
{
    let chars = text::chars_of(path);
    chars.len() > 0 && chars[0] == '/'
}

fn has_components_of(inner: &Vec<String>, outer: &Vec<String>) -> (b: bool)
    ensures
        b == begins_with(text::texts(inner@), text::texts(outer@)),
{
    let ghost big = text::texts(inner@);
    let ghost small = text::texts(outer@);
    if outer.len() > inner.len() {
        return false;
    }
    let mut i: usize = 0;
    while i < outer.len()
        invariant
            i <= outer@.len(),
            outer@.len() <= inner@.len(),
            big == text::texts(inner@),
            small == text::texts(outer@),
            forall|j: int| 0 <= j < i ==> big[j] == #[trigger] small[j],
        decreases outer@.len() - i,
    {
        assert(big[i as int] == inner@[i as int]@);
        assert(small[i as int] == outer@[i as int]@);
        if !text::same(inner[i].as_str(), outer[i].as_str()) {
            assert(big.take(small.len() as int)[i as int] != small[i as int]);
            return false;
        }
        i += 1;
    }
    assert(big.take(small.len() as int) =~= small);
    true
}

/// The path that a requested one comes to. One that leaves the directory is
/// refused.
pub fn resolve_contained(dir: &str, requested: &str) -> (r: Result<String, String>)
    ensures
        match contained(dir@, requested@) {
            Some(p) => r matches Ok(out) && out@ == p,
            None => r matches Err(e) && e@ == "path '"@ + requested@ + "' escapes '"@ + dir@ + "'"@,
        },
{
    let absolute = starts_at_root(requested);
    let rooted = starts_at_root(dir);
    let place = if absolute {
        requested.to_owned()
    } else {
        text::join3(dir, "/", requested)
    };
    if let (Some(outer), Some(inner)) = (split_components(dir), split_components(place.as_str())) {
        if has_components_of(&inner, &outer) && (rooted || !absolute) {
            let path = join_components(&inner);
            return Ok(
                if rooted {
                    text::join2("/", path.as_str())
                } else {
                    path
                },
            );
        }
    }
    let mut what = text::join3("path '", requested, "' escapes '");
    text::push_text(&mut what, dir);
    text::push_text(&mut what, "'");
    Err(what)
}

/// Whether a component is a name: neither empty, nor `.` or `..`, nor with a
/// slash in it.
pub open spec fn is_name(part: Seq<char>) -> bool {
    part.len() > 0 && part != "."@ && part != ".."@ && !part.contains('/')
}

/// Whether all components are names.
pub open spec fn all_names(parts: Seq<Seq<char>>) -> bool {
    forall|i: int| 0 <= i < parts.len() ==> is_name(#[trigger] parts[i])
}

proof fn lemma_split_has_no_slash(s: Seq<char>)
    ensures
        forall|i: int|
            0 <= i < text::split_of(s, '/').len() ==> !(#[trigger] text::split_of(
                s,
                '/',
            )[i]).contains('/'),
    decreases s.len(),
{
    text::lemma_first_of(s, '/');
    let n = text::first_of(s, '/');
    if 0 <= n < s.len() {
        let tail = text::split_of(s.skip(n + 1), '/');
        lemma_split_has_no_slash(s.skip(n + 1));
        assert(!s.take(n).contains('/'));
        assert forall|i: int| 0 <= i < text::split_of(s, '/').len() implies !(
        #[trigger] text::split_of(s, '/')[i]).contains('/') by {
            if i > 0 {
                assert(text::split_of(s, '/')[i] == tail[i - 1]);
            }
        }
    } else {
        assert(!s.contains('/'));
    }
}

proof fn lemma_worked_off_names(parts: Seq<Seq<char>>, before: Seq<Seq<char>>)
    requires
        all_names(before),
        forall|i: int| 0 <= i < parts.len() ==> !(#[trigger] parts[i]).contains('/'),
    ensures
        worked_off(parts, before) matches Some(out) ==> all_names(out),
    decreases parts.len(),
{
    if parts.len() > 0 {
        let rest = parts.drop_first();
        assert forall|i: int| 0 <= i < rest.len() implies !(#[trigger] rest[i]).contains('/') by {
            assert(rest[i] == parts[i + 1]);
        }
        if parts[0].len() == 0 || parts[0] == "."@ {
            lemma_worked_off_names(rest, before);
        } else if parts[0] == ".."@ {
            if before.len() > 0 {
                lemma_worked_off_names(rest, before.drop_last());
            }
        } else {
            lemma_worked_off_names(rest, before.push(parts[0]));
        }
    }
}

/// What the components of a path come to are names.
pub proof fn lemma_components_are_names(path: Seq<char>)
    ensures
        components(path) matches Some(out) ==> all_names(out),
{
    lemma_split_has_no_slash(path);
    lemma_worked_off_names(text::split_of(path, '/'), Seq::empty());
}

proof fn lemma_worked_off_keeps_names(parts: Seq<Seq<char>>, before: Seq<Seq<char>>)
    requires
        all_names(parts),
    ensures
        worked_off(parts, before) == Some(before + parts),
    decreases parts.len(),
{
    if parts.len() == 0 {
        assert(before + parts =~= before);
    } else {
        assert(is_name(parts[0]));
        let rest = parts.drop_first();
        assert forall|i: int| 0 <= i < rest.len() implies is_name(#[trigger] rest[i]) by {
            assert(rest[i] == parts[i + 1]);
        }
        lemma_worked_off_keeps_names(rest, before.push(parts[0]));
        assert(before.push(parts[0]) + rest =~= before + parts);
    }
}

proof fn lemma_split_joined(parts: Seq<Seq<char>>)
    requires
        all_names(parts),
        parts.len() > 0,
    ensures
        text::split_of(joined(parts), '/') == parts,
    decreases parts.len(),
{
    let s = joined(parts);
    let first = parts[0];
    assert(is_name(first));
    if parts.len() == 1 {
        assert forall|i: int| 0 <= i < s.len() implies #[trigger] s[i] != '/' by {
            assert(first.contains(s[i]));
        }
        text::lemma_first_of_is(s, '/', s.len() as int);
        assert(text::split_of(s, '/') =~= parts);
    } else {
        let rest = parts.drop_first();
        assert forall|i: int| 0 <= i < rest.len() implies is_name(#[trigger] rest[i]) by {
            assert(rest[i] == parts[i + 1]);
        }
        lemma_split_joined(rest);
        let n = first.len() as int;
        assert forall|i: int| 0 <= i < n implies #[trigger] s[i] != '/' by {
            assert(s[i] == first[i]);
            assert(first.contains(first[i]));
        }
        assert(s[n] == '/');
        text::lemma_first_of_is(s, '/', n);
        assert(s.take(n) =~= first);
        assert(s.skip(n + 1) =~= joined(rest));
        assert(text::split_of(s, '/') =~= parts);
    }
}

proof fn lemma_components_of_joined(parts: Seq<Seq<char>>)
    requires
        all_names(parts),
    ensures
        components(joined(parts)) == Some(parts),
        components("/"@ + joined(parts)) == Some(parts),
{
    reveal_strlit("/");
    let plain = joined(parts);
    let rooted = "/"@ + plain;
    let none = Seq::<Seq<char>>::empty();
    let pieces = text::split_of(plain, '/');
    if parts.len() == 0 {
        text::lemma_first_of_is(plain, '/', 0);
        assert(pieces =~= seq![Seq::<char>::empty()]);
        assert(pieces.drop_first() =~= none);
        assert(worked_off(pieces.drop_first(), none) == Some(none));
        assert(none =~= parts);
    } else {
        lemma_split_joined(parts);
        lemma_worked_off_keeps_names(parts, none);
        assert(none + parts =~= parts);
    }
    assert(components(plain) == Some(parts));
    assert(rooted[0] == '/');
    text::lemma_first_of_is(rooted, '/', 0);
    assert(rooted.take(0) =~= Seq::<char>::empty());
    assert(rooted.skip(1) =~= plain);
    let more = text::split_of(rooted, '/');
    assert(more =~= seq![Seq::<char>::empty()] + pieces);
    assert(more.drop_first() =~= pieces);
}

/// A path that was accepted lies inside the directory: its components begin
/// with those of the directory, and none of them is `..`.
pub proof fn law_stays_inside(dir: Seq<char>, requested: Seq<char>)
    ensures
        contained(dir, requested) matches Some(path) ==> {
            &&& components(path) matches Some(inner) && components(dir) matches Some(outer)
                && begins_with(inner, outer) && all_names(inner)
            &&& is_absolute(dir) ==> is_absolute(path)
        },
{
    if contained(dir, requested) is Some {
        reveal_strlit("/");
        let place = meant(dir, requested);
        let inner = components(place)->0;
        lemma_split_has_no_slash(place);
        lemma_worked_off_names(text::split_of(place, '/'), Seq::empty());
        lemma_components_of_joined(inner);
    }
}

} // verus!
