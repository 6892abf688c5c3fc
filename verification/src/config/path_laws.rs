//! What holds of every path that has to stay below a directory.
use crate::config::safe_path;
use crate::config::safe_path::resolve_contained;
use crate::text;
use vstd::prelude::*;

verus! {

/// Texts in a row, a slash between each two.
pub open spec fn slashed(parts: Seq<Seq<char>>) -> Seq<char>
    decreases parts.len(),
{
    if parts.len() == 0 {
        Seq::empty()
    } else if parts.len() == 1 {
        parts[0]
    } else {
        parts[0] + seq!['/'] + slashed(parts.drop_first())
    }
}

/// Whether a part of a path is a name: not empty, neither of the two that mean
/// a directory, and without a slash.
pub open spec fn plain_name(part: Seq<char>) -> bool {
    part.len() > 0 && part != "."@ && part != ".."@ && !part.contains('/')
}

/// Whether all parts of a path are names.
pub open spec fn plain_names(parts: Seq<Seq<char>>) -> bool {
    forall|i: int| 0 <= i < parts.len() ==> plain_name(#[trigger] parts[i])
}

/// Whether no part of a path holds a slash or is empty.
pub open spec fn parts_only(parts: Seq<Seq<char>>) -> bool {
    forall|i: int|
        0 <= i < parts.len() ==> !(#[trigger] parts[i]).contains('/') && parts[i].len() > 0
}

/// Parts with slashes between them are the parts between the slashes.
pub proof fn lemma_split(parts: Seq<Seq<char>>)
    requires
        parts.len() > 0,
        parts_only(parts),
    ensures
        text::split_of(slashed(parts), '/') == parts,
    decreases parts.len(),
{
    let p = parts[0];
    let all = slashed(parts);
    let rest = parts.drop_first();
    assert(!parts[0].contains('/'));
    assert forall|i: int| 0 <= i < p.len() implies #[trigger] all[i] != '/' by {
        assert(all[i] == p[i]);
        assert(p.contains(p[i]));
    }
    text::lemma_first_of_is(all, '/', p.len() as int);
    if parts.len() == 1 {
        assert(parts =~= seq![p]);
    } else {
        assert forall|i: int| 0 <= i < rest.len() implies !(#[trigger] rest[i]).contains('/')
            && rest[i].len() > 0 by {
            assert(rest[i] == parts[i + 1]);
        }
        lemma_split(rest);
        assert(all.take(p.len() as int) =~= p);
        assert(all.skip(p.len() as int + 1) =~= slashed(rest));
        assert(parts =~= seq![p] + rest);
    }
}

proof fn lemma_split_rooted(s: Seq<char>)
    ensures
        text::split_of(seq!['/'] + s, '/') == seq![Seq::<char>::empty()] + text::split_of(s, '/'),
{
    let all = seq!['/'] + s;
    text::lemma_first_of_is(all, '/', 0);
    assert(all.take(0) =~= Seq::empty());
    assert(all.skip(1) =~= s);
}

proof fn lemma_worked_off_more(a: Seq<Seq<char>>, b: Seq<Seq<char>>, before: Seq<Seq<char>>)
    ensures
        safe_path::worked_off(a + b, before) == (match safe_path::worked_off(a, before) {
            Some(m) => safe_path::worked_off(b, m),
            None => None,
        }),
    decreases a.len(),
{
    if a.len() == 0 {
        assert(a + b =~= b);
    } else {
        let rest = a.drop_first();
        assert((a + b).drop_first() =~= rest + b);
        assert((a + b)[0] == a[0]);
        lemma_worked_off_more(rest, b, before);
        lemma_worked_off_more(rest, b, before.drop_last());
        lemma_worked_off_more(rest, b, before.push(a[0]));
    }
}

/// Names lead downwards, one after the other.
pub proof fn lemma_worked_off_plain(parts: Seq<Seq<char>>, before: Seq<Seq<char>>)
    requires
        plain_names(parts),
    ensures
        safe_path::worked_off(parts, before) == Some(before + parts),
    decreases parts.len(),
{
    if parts.len() == 0 {
        assert(before + parts =~= before);
    } else {
        let rest = parts.drop_first();
        assert(plain_name(parts[0]));
        assert forall|i: int| 0 <= i < rest.len() implies plain_name(#[trigger] rest[i]) by {
            assert(rest[i] == parts[i + 1]);
        }
        lemma_worked_off_plain(rest, before.push(parts[0]));
        assert(before.push(parts[0]) + rest =~= before + parts);
    }
}

proof fn lemma_slashed_same(parts: Seq<Seq<char>>)
    ensures
        safe_path::joined(parts) == slashed(parts),
    decreases parts.len(),
{
    if parts.len() > 1 {
        lemma_slashed_same(parts.drop_first());
    }
}

proof fn lemma_slashed_more(a: Seq<Seq<char>>, b: Seq<Seq<char>>)
    requires
        a.len() > 0,
        b.len() > 0,
    ensures
        slashed(a + b) == slashed(a) + seq!['/'] + slashed(b),
    decreases a.len(),
{
    let all = a + b;
    assert(all[0] == a[0]);
    if a.len() == 1 {
        assert(all.drop_first() =~= b);
    } else {
        lemma_slashed_more(a.drop_first(), b);
        assert(all.drop_first() =~= a.drop_first() + b);
        assert(a[0] + seq!['/'] + (slashed(a.drop_first()) + seq!['/'] + slashed(b)) =~= (a[0]
            + seq!['/'] + slashed(a.drop_first())) + seq!['/'] + slashed(b));
    }
}

proof fn lemma_names_are_parts(parts: Seq<Seq<char>>)
    requires
        plain_names(parts),
    ensures
        parts_only(parts),
{
    assert forall|i: int| 0 <= i < parts.len() implies !(#[trigger] parts[i]).contains('/')
        && parts[i].len() > 0 by {
        assert(plain_name(parts[i]));
    }
}

/// What a path below a rooted directory comes to: the directory's names with
/// the requested parts worked off behind them.
proof fn lemma_requested(d: Seq<Seq<char>>, q: Seq<Seq<char>>)
    requires
        d.len() > 0,
        q.len() > 0,
        plain_names(d),
        parts_only(q),
    ensures
        safe_path::components(seq!['/'] + slashed(d)) == Some(d),
        safe_path::components(safe_path::meant(seq!['/'] + slashed(d), slashed(q)))
            == safe_path::worked_off(q, d),
        !safe_path::is_absolute(slashed(q)),
        safe_path::is_absolute(seq!['/'] + slashed(d)),
{
    let none = Seq::<Seq<char>>::empty();
    let lone = seq![Seq::<char>::empty()];
    let dir = seq!['/'] + slashed(d);
    reveal_strlit("/");
    lemma_names_are_parts(d);
    lemma_split(d);
    lemma_split_rooted(slashed(d));
    lemma_worked_off_more(lone, d, none);
    assert(lone.drop_first() =~= none);
    assert(safe_path::worked_off(lone, none) == Some(none)) by {
        assert(safe_path::worked_off(lone.drop_first(), none) == Some(none));
    }
    lemma_worked_off_plain(d, none);
    assert(none + d =~= d);
    assert(slashed(q)[0] != '/') by {
        assert(q[0].len() > 0 && !q[0].contains('/'));
        assert(slashed(q)[0] == q[0][0]);
        assert(q[0].contains(q[0][0]));
    }
    let whole = safe_path::meant(dir, slashed(q));
    lemma_slashed_more(d, q);
    assert(whole =~= seq!['/'] + slashed(d + q));
    let dq = d + q;
    assert forall|i: int| 0 <= i < dq.len() implies !(#[trigger] dq[i]).contains('/')
        && dq[i].len() > 0 by {
        if i < d.len() {
            assert(dq[i] == d[i]);
        } else {
            assert(dq[i] == q[i - d.len()]);
        }
    }
    lemma_split(dq);
    lemma_split_rooted(slashed(dq));
    lemma_worked_off_more(lone, dq, none);
    lemma_worked_off_more(d, q, none);
}

/// Names below a directory are found below it, as they are written.
pub proof fn law_names_below(
    dir: &str,
    requested: &str,
    d: Seq<Seq<char>>,
    q: Seq<Seq<char>>,
    r: Result<String, String>,
)
    requires
        call_ensures(resolve_contained, (dir, requested), r),
        d.len() > 0,
        q.len() > 0,
        plain_names(d),
        plain_names(q),
        dir@ == seq!['/'] + slashed(d),
        requested@ == slashed(q),
    ensures
        r matches Ok(p) && p@ == dir@ + seq!['/'] + requested@,
{
    reveal_strlit("/");
    lemma_names_are_parts(q);
    lemma_requested(d, q);
    lemma_worked_off_plain(q, d);
    assert((d + q).take(d.len() as int) =~= d);
    lemma_slashed_same(d + q);
    lemma_slashed_more(d, q);
    assert("/"@ + slashed(d + q) =~= dir@ + seq!['/'] + requested@);
}

/// A part that means the directory itself, and a name that is left again at
/// once, make no difference.
pub proof fn law_detours(
    dir: &str,
    straight: &str,
    dotted: &str,
    around: &str,
    d: Seq<Seq<char>>,
    a: Seq<Seq<char>>,
    name: Seq<char>,
    b: Seq<Seq<char>>,
    one: Result<String, String>,
    two: Result<String, String>,
    three: Result<String, String>,
)
    requires
        call_ensures(resolve_contained, (dir, straight), one),
        call_ensures(resolve_contained, (dir, dotted), two),
        call_ensures(resolve_contained, (dir, around), three),
        d.len() > 0,
        (a + b).len() > 0,
        plain_names(d),
        plain_name(name),
        parts_only(a),
        parts_only(b),
        dir@ == seq!['/'] + slashed(d),
        straight@ == slashed(a + b),
        dotted@ == slashed(a + seq!["."@] + b),
        around@ == slashed(a + seq![name, ".."@] + b),
    ensures
        one is Ok <==> two is Ok,
        one is Ok <==> three is Ok,
        one is Ok ==> one->Ok_0@ == two->Ok_0@ && one->Ok_0@ == three->Ok_0@,
{
    reveal_strlit(".");
    reveal_strlit("..");
    let q1 = a + b;
    let q2 = a + seq!["."@] + b;
    let q3 = a + seq![name, ".."@] + b;
    assert(parts_only(q1)) by {
        assert forall|i: int| 0 <= i < q1.len() implies !(#[trigger] q1[i]).contains('/')
            && q1[i].len() > 0 by {
            if i < a.len() {
                assert(q1[i] == a[i]);
            } else {
                assert(q1[i] == b[i - a.len()]);
            }
        }
    }
    assert(parts_only(q2)) by {
        assert forall|i: int| 0 <= i < q2.len() implies !(#[trigger] q2[i]).contains('/')
            && q2[i].len() > 0 by {
            if i < a.len() {
                assert(q2[i] == a[i]);
            } else if i > a.len() {
                assert(q2[i] == b[i - a.len() - 1]);
            }
        }
    }
    assert(parts_only(q3)) by {
        assert forall|i: int| 0 <= i < q3.len() implies !(#[trigger] q3[i]).contains('/')
            && q3[i].len() > 0 by {
            if i < a.len() {
                assert(q3[i] == a[i]);
            } else if i == a.len() {
                assert(q3[i] == name);
            } else if i > a.len() + 1 {
                assert(q3[i] == b[i - a.len() - 2]);
            } else {
                assert(q3[i] == ".."@);
            }
        }
    }
    lemma_requested(d, q1);
    lemma_requested(d, q2);
    lemma_requested(d, q3);
    lemma_worked_off_more(a, b, d);
    lemma_worked_off_more(a + seq!["."@], b, d);
    lemma_worked_off_more(a, seq!["."@], d);
    lemma_worked_off_more(a + seq![name, ".."@], b, d);
    lemma_worked_off_more(a, seq![name, ".."@], d);
    if safe_path::worked_off(a, d) is Some {
        let m = safe_path::worked_off(a, d)->0;
        lemma_here(m);
        lemma_there_and_back(m, name);
    }
}

proof fn lemma_here(m: Seq<Seq<char>>)
    ensures
        safe_path::worked_off(seq!["."@], m) == Some(m),
{
    assert(safe_path::worked_off(seq!["."@].drop_first(), m) == Some(m)) by {
        assert(seq!["."@].drop_first().len() == 0);
    }
}

proof fn lemma_there_and_back(m: Seq<Seq<char>>, name: Seq<char>)
    requires
        plain_name(name),
    ensures
        safe_path::worked_off(seq![name, ".."@], m) == Some(m),
{
    let two = seq![name, ".."@];
    let one = two.drop_first();
    reveal_strlit(".");
    reveal_strlit("..");
    assert(one[0] == ".."@);
    let in_name = m.push(name);
    assert(in_name.drop_last() =~= m);
    assert(safe_path::worked_off(one.drop_first(), m) == Some(m)) by {
        assert(one.drop_first().len() == 0);
    }
    assert(one[0] != "."@) by {
        assert("."@.len() != ".."@.len());
    }
    assert(safe_path::worked_off(one, in_name) == Some(m));
}

/// A path that leaves the directory for a place beside it is refused.
pub proof fn law_way_out(
    dir: &str,
    requested: &str,
    d: Seq<Seq<char>>,
    q: Seq<Seq<char>>,
    r: Result<String, String>,
)
    requires
        call_ensures(resolve_contained, (dir, requested), r),
        d.len() > 0,
        plain_names(d),
        plain_names(q),
        dir@ == seq!['/'] + slashed(d),
        requested@ == slashed(seq![".."@] + q),
        q.len() > 0 ==> q[0] != d.last(),
    ensures
        r matches Err(e) && e@ == "path '"@ + requested@ + "' escapes '"@ + dir@ + "'"@,
{
    reveal_strlit("..");
    reveal_strlit(".");
    lemma_names_are_parts(q);
    let up = seq![".."@];
    let uq = up + q;
    assert forall|i: int| 0 <= i < uq.len() implies !(#[trigger] uq[i]).contains('/')
        && uq[i].len() > 0 by {
        if i > 0 {
            assert(uq[i] == q[i - 1]);
        } else {
            assert(uq[i] == ".."@);
        }
    }
    lemma_requested(d, uq);
    lemma_worked_off_more(up, q, d);
    assert(up[0] != "."@) by {
        assert("."@.len() != ".."@.len());
    }
    assert(safe_path::worked_off(up, d) == Some(d.drop_last())) by {
        assert(safe_path::worked_off(up.drop_first(), d.drop_last()) == Some(d.drop_last())) by {
            assert(up.drop_first().len() == 0);
        }
    }
    lemma_worked_off_plain(q, d.drop_last());
    let inner = d.drop_last() + q;
    if inner.len() >= d.len() {
        assert(inner.take(d.len() as int)[d.len() - 1] == q[0]);
        assert(d[d.len() - 1] == d.last());
    }
}

/// A rooted path is taken when it lies below the directory, and refused when it
/// does not.
pub proof fn law_rooted_path(
    dir: &str,
    requested: &str,
    d: Seq<Seq<char>>,
    q: Seq<Seq<char>>,
    r: Result<String, String>,
)
    requires
        call_ensures(resolve_contained, (dir, requested), r),
        d.len() > 0,
        q.len() > 0,
        plain_names(d),
        plain_names(q),
        dir@ == seq!['/'] + slashed(d),
        requested@ == seq!['/'] + slashed(q),
    ensures
        (exists|more: Seq<Seq<char>>| q == #[trigger] (d + more)) ==> (r matches Ok(p) && p@
            == requested@),
        (forall|more: Seq<Seq<char>>| q != #[trigger] (d + more)) ==> r is Err,
{
    reveal_strlit("/");
    lemma_names_are_parts(q);
    lemma_requested(d, d);
    lemma_requested(q, q);
    lemma_slashed_same(q);
    assert("/"@ + slashed(q) =~= requested@);
    if exists|more: Seq<Seq<char>>| q == #[trigger] (d + more) {
        let more = choose|more: Seq<Seq<char>>| q == #[trigger] (d + more);
        assert(q.take(d.len() as int) =~= d);
    } else {
        if safe_path::begins_with(q, d) {
            assert(q =~= d + q.skip(d.len() as int));
        }
    }
}

} // verus!
