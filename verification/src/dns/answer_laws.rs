//! What holds of the addresses taken from any response.
use crate::dns::answers::{
    address_of, alias_chain, answers_question, canonical, collect, follow, is_alias_of,
    lemma_visited_bound, link_of, lower_byte, lower_label, min_opt, owners, relevant,
    relevant_ip_answers, same_name,
};
use crate::dns::families::{TYPE_A, TYPE_AAAA};
use crate::dns::message::{
    DataModel, DnsMessage, DnsName, MessageModel, NameModel, QuestionModel, RecordModel,
};
use crate::net::IpAddr;
use vstd::multiset::Multiset;
use vstd::prelude::*;

verus! {

/// Only addresses of the family asked for are taken, and each comes from a
/// record of the question's class whose owner is on the alias chain.
pub proof fn law_relevant_sound(m: MessageModel, i: int)
    requires
        0 <= i < relevant(m).0.len(),
    ensures
        m.queries.len() > 0,
        ({
            let q = m.queries[0];
            &&& q.query_type == TYPE_A || q.query_type == TYPE_AAAA
            &&& q.query_type == TYPE_A <==> relevant(m).0[i] is V4
            &&& alias_chain(m.answers, q) is Some
            &&& exists|j: int|
                0 <= j < m.answers.len() && #[trigger] answers_question(
                    m.answers[j],
                    q,
                    (alias_chain(m.answers, q)->0).0,
                ) && address_of(m.answers[j], q.query_type) == Some(relevant(m).0[i])
        }),
{
    let q = m.queries[0];
    let chain = alias_chain(m.answers, q)->0;
    lemma_collect_source(m.answers, q, chain.0, chain.1, i);
}

proof fn lemma_collect_source(
    answers: Seq<RecordModel>,
    q: QuestionModel,
    names: Seq<NameModel>,
    ttl: Option<u32>,
    i: int,
)
    requires
        0 <= i < collect(answers, q, names, ttl).0.len(),
    ensures
        exists|j: int|
            0 <= j < answers.len() && #[trigger] answers_question(answers[j], q, names)
                && address_of(answers[j], q.query_type) == Some(
                collect(answers, q, names, ttl).0[i],
            ),
    decreases answers.len(),
{
    let head = answers.drop_last();
    let before = collect(head, q, names, ttl);
    if i < before.0.len() {
        lemma_collect_source(head, q, names, ttl, i);
        let j = choose|j: int|
            0 <= j < head.len() && #[trigger] answers_question(head[j], q, names) && address_of(
                head[j],
                q.query_type,
            ) == Some(before.0[i]);
        assert(answers[j] == head[j]);
        assert(answers_question(answers[j], q, names));
    } else {
        assert(answers_question(answers[answers.len() - 1], q, names));
    }
}

/// The order of the answer records does not matter: another order gives the
/// same addresses, counted, and the same life.
pub proof fn law_answer_order(m: MessageModel, other: Seq<RecordModel>)
    requires
        other.to_multiset() == m.answers.to_multiset(),
    ensures
        ({
            let n = MessageModel { answers: other, ..m };
            &&& relevant(n).0.to_multiset() == relevant(m).0.to_multiset()
            &&& relevant(n).1 == relevant(m).1
        }),
{
    broadcast use vstd::seq_lib::group_to_multiset_ensures;

    if m.queries.len() > 0 {
        let q = m.queries[0];
        other.to_multiset_ensures();
        m.answers.to_multiset_ensures();
        assert(other.to_multiset().len() == m.answers.to_multiset().len());
        assert forall|r: RecordModel| other.contains(r) <==> m.answers.contains(r) by {
            vstd::seq_lib::to_multiset_contains(other, r);
            vstd::seq_lib::to_multiset_contains(m.answers, r);
        }
        lemma_follow_order(
            m.answers,
            other,
            q.query_class,
            canonical(q.name),
            Seq::empty(),
            None,
            m.answers.len() + 1,
        );
        if alias_chain(m.answers, q) is Some {
            let chain = alias_chain(m.answers, q)->0;
            let step = collect_step(q, chain.0);
            lemma_collect_fold(m.answers, q, chain.0, chain.1);
            lemma_collect_fold(other, q, chain.0, chain.1);
            assert(vstd::seq_lib::commutative_foldl(step)) by {
                assert forall|x: RecordModel, y: RecordModel, v: (Multiset<IpAddr>, Option<u32>)|
                    #[trigger] step(step(v, x), y) == step(step(v, y), x) by {
                    let a = step(step(v, x), y);
                    let b = step(step(v, y), x);
                    assert(a.0 =~= b.0);
                }
            }
            vstd::seq_lib::lemma_fold_left_permutation(
                m.answers,
                other,
                step,
                (Multiset::empty(), chain.1),
            );
        }
    }
}

spec fn collect_step(q: QuestionModel, names: Seq<NameModel>) -> spec_fn(
    (Multiset<IpAddr>, Option<u32>),
    RecordModel,
) -> (Multiset<IpAddr>, Option<u32>) {
    |v: (Multiset<IpAddr>, Option<u32>), r: RecordModel|
        if answers_question(r, q, names) {
            (v.0.insert(address_of(r, q.query_type)->0), min_opt(v.1, r.ttl))
        } else {
            v
        }
}

proof fn lemma_collect_fold(
    answers: Seq<RecordModel>,
    q: QuestionModel,
    names: Seq<NameModel>,
    ttl: Option<u32>,
)
    ensures
        ({
            let c = collect(answers, q, names, ttl);
            (c.0.to_multiset(), c.1) == answers.fold_left(
                (Multiset::empty(), ttl),
                collect_step(q, names),
            )
        }),
    decreases answers.len(),
{
    broadcast use vstd::seq_lib::group_to_multiset_ensures;

    let c = collect(answers, q, names, ttl);
    if answers.len() == 0 {
        assert(c.0.to_multiset() =~= Multiset::empty());
    } else {
        lemma_collect_fold(answers.drop_last(), q, names, ttl);
        let before = collect(answers.drop_last(), q, names, ttl);
        if answers_question(answers.last(), q, names) {
            vstd::seq_lib::to_multiset_build(
                before.0,
                address_of(answers.last(), q.query_type)->0,
            );
        }
    }
}

/// What a link says of all the alias records of its owner.
proof fn lemma_link(answers: Seq<RecordModel>, class: u16, owner: NameModel)
    ensures
        match link_of(answers, class, owner) {
            None => forall|r: RecordModel|
                #[trigger] answers.contains(r) ==> !is_alias_of(r, class, owner),
            Some(l) => if l.ambiguous {
                exists|r: RecordModel, s: RecordModel|
                    #[trigger] answers.contains(r) && #[trigger] answers.contains(s)
                        && is_alias_of(r, class, owner) && is_alias_of(s, class, owner)
                        && canonical(r.data->Cname_0) != canonical(s.data->Cname_0)
            } else {
                &&& forall|r: RecordModel|
                    #[trigger] answers.contains(r) && is_alias_of(r, class, owner) ==> canonical(
                        r.data->Cname_0,
                    ) == l.target && l.ttl <= r.ttl
                &&& exists|r: RecordModel|
                    #[trigger] answers.contains(r) && is_alias_of(r, class, owner) && r.ttl
                        == l.ttl
            },
        },
        link_of(answers, class, owner) matches Some(l) ==> exists|r: RecordModel|
            #[trigger] answers.contains(r) && is_alias_of(r, class, owner) && canonical(
                r.data->Cname_0,
            ) == l.target,
    decreases answers.len(),
{
    if answers.len() > 0 {
        let head = answers.drop_last();
        let last = answers.last();
        lemma_link(head, class, owner);
        assert(answers.contains(last)) by {
            assert(answers[answers.len() - 1] == last);
        }
        assert forall|r: RecordModel| #[trigger] answers.contains(r) <==> head.contains(r) || r
            == last by {
            if answers.contains(r) && r != last {
                let i = choose|i: int| 0 <= i < answers.len() && answers[i] == r;
                assert(head[i] == r);
            }
            if head.contains(r) {
                let i = choose|i: int| 0 <= i < head.len() && head[i] == r;
                assert(answers[i] == r);
            }
        }
        let before = link_of(head, class, owner);
        if before is Some {
            let l = before->0;
            let w = choose|r: RecordModel|
                #[trigger] head.contains(r) && is_alias_of(r, class, owner) && canonical(
                    r.data->Cname_0,
                ) == l.target;
            assert(answers.contains(w));
            if l.ambiguous {
                let (r, s) = choose|r: RecordModel, s: RecordModel|
                    #[trigger] head.contains(r) && #[trigger] head.contains(s) && is_alias_of(
                        r,
                        class,
                        owner,
                    ) && is_alias_of(s, class, owner) && canonical(r.data->Cname_0) != canonical(
                        s.data->Cname_0,
                    );
                assert(answers.contains(r) && answers.contains(s));
            } else {
                let t = choose|r: RecordModel|
                    #[trigger] head.contains(r) && is_alias_of(r, class, owner) && r.ttl == l.ttl;
                assert(answers.contains(t));
            }
        }
    }
}

proof fn lemma_link_order(
    a: Seq<RecordModel>,
    b: Seq<RecordModel>,
    class: u16,
    owner: NameModel,
)
    requires
        forall|r: RecordModel| a.contains(r) <==> b.contains(r),
    ensures
        match (link_of(a, class, owner), link_of(b, class, owner)) {
            (None, None) => true,
            (Some(x), Some(y)) => x.ambiguous == y.ambiguous && (!x.ambiguous ==> x.target
                == y.target && x.ttl == y.ttl),
            _ => false,
        },
{
    lemma_link(a, class, owner);
    lemma_link(b, class, owner);
}

proof fn lemma_follow_order(
    a: Seq<RecordModel>,
    b: Seq<RecordModel>,
    class: u16,
    current: NameModel,
    visited: Seq<NameModel>,
    ttl: Option<u32>,
    fuel: nat,
)
    requires
        forall|r: RecordModel| a.contains(r) <==> b.contains(r),
    ensures
        follow(a, class, current, visited, ttl, fuel) == follow(
            b,
            class,
            current,
            visited,
            ttl,
            fuel,
        ),
    decreases fuel,
{
    if fuel > 0 && !visited.contains(current) {
        lemma_link_order(a, b, class, current);
        if link_of(a, class, current) is Some && !link_of(a, class, current)->0.ambiguous {
            let l = link_of(a, class, current)->0;
            lemma_follow_order(
                a,
                b,
                class,
                l.target,
                visited.push(current),
                min_opt(ttl, l.ttl),
                (fuel - 1) as nat,
            );
        }
    }
}

/// Contradicting aliases of the question's own name leave no address.
pub proof fn law_conflicting_aliases(m: MessageModel, i: int, j: int)
    requires
        m.queries.len() > 0,
        0 <= i < m.answers.len(),
        0 <= j < m.answers.len(),
        is_alias_of(m.answers[i], m.queries[0].query_class, canonical(m.queries[0].name)),
        is_alias_of(m.answers[j], m.queries[0].query_class, canonical(m.queries[0].name)),
        canonical(m.answers[i].data->Cname_0) != canonical(m.answers[j].data->Cname_0),
    ensures
        relevant(m) == (Seq::<IpAddr>::empty(), None::<u32>),
{
    let q = m.queries[0];
    lemma_link(m.answers, q.query_class, canonical(q.name));
    assert(m.answers.contains(m.answers[i]));
    assert(m.answers.contains(m.answers[j]));
    assert(link_of(m.answers, q.query_class, canonical(q.name)) matches Some(l) && l.ambiguous);
}

/// Whether two bytes are equal, or one ASCII letter in both cases.
pub open spec fn same_byte(a: u8, b: u8) -> bool {
    a == b || (0x41 <= a <= 0x5a && b == a + 32) || (0x41 <= b <= 0x5a && a == b + 32)
}

/// Whether two labels differ at most in the case of ASCII letters.
pub open spec fn same_label(a: Seq<u8>, b: Seq<u8>) -> bool {
    a.len() == b.len() && forall|i: int| 0 <= i < a.len() ==> same_byte(#[trigger] a[i], b[i])
}

/// Whether two names have the same labels, up to case.
pub open spec fn same(a: NameModel, b: NameModel) -> bool {
    a.len() == b.len() && forall|i: int| 0 <= i < a.len() ==> same_label(#[trigger] a[i], b[i])
}

proof fn lemma_same_label(a: Seq<u8>, b: Seq<u8>)
    ensures
        same_label(a, b) <==> lower_label(a) == lower_label(b),
{
    let x = lower_label(a);
    let y = lower_label(b);
    assert(x.len() == a.len() && y.len() == b.len());
    if x == y {
        assert forall|i: int| 0 <= i < a.len() implies same_byte(#[trigger] a[i], b[i]) by {
            assert(x[i] == lower_byte(a[i]) && y[i] == lower_byte(b[i]));
        }
    }
    if same_label(a, b) {
        assert forall|i: int| 0 <= i < x.len() implies x[i] == y[i] by {
            assert(same_byte(a[i], b[i]));
        }
        assert(x =~= y);
    }
}

pub proof fn lemma_same(a: NameModel, b: NameModel)
    ensures
        same(a, b) <==> canonical(a) == canonical(b),
{
    let x = canonical(a);
    let y = canonical(b);
    assert(x.len() == a.len() && y.len() == b.len());
    if x == y {
        assert forall|i: int| 0 <= i < a.len() implies same_label(#[trigger] a[i], b[i]) by {
            assert(x[i] == lower_label(a[i]) && y[i] == lower_label(b[i]));
            lemma_same_label(a[i], b[i]);
        }
    }
    if same(a, b) {
        assert forall|i: int| 0 <= i < x.len() implies x[i] == y[i] by {
            assert(same_label(a[i], b[i]));
            lemma_same_label(a[i], b[i]);
        }
        assert(x =~= y);
    }
}

/// Names are compared label by label, and case does not count.
pub proof fn law_names_ignore_case(a: &DnsName, b: &DnsName, r: bool)
    requires
        call_ensures(same_name, (a, b), r),
    ensures
        r <==> same(a@, b@),
{
    lemma_same(a@, b@);
}

/// Whether a record says that a name is an alias.
pub open spec fn aliases(r: RecordModel, class: u16, name: NameModel) -> bool {
    r.dns_class == class && r.data is Cname && same(r.name, name)
}

/// Whether names lead one to the next by the aliases of an answer: every alias of
/// a name leads to the next one, there is one for each but the last, none for the
/// last, and no name comes twice.
pub open spec fn is_path(answers: Seq<RecordModel>, class: u16, path: Seq<NameModel>) -> bool {
    &&& path.len() > 0
    &&& forall|k: int, l: int| 0 <= k < l < path.len() ==> !same(#[trigger] path[k], #[trigger] path[l])
    &&& forall|k: int, i: int|
        0 <= k < path.len() && 0 <= i < answers.len() && #[trigger] aliases(
            answers[i],
            class,
            path[k],
        ) ==> k + 1 < path.len() && same(answers[i].data->Cname_0, path[k + 1])
    &&& forall|k: int|
        0 <= k < path.len() - 1 ==> exists|i: int|
            0 <= i < answers.len() && aliases(#[trigger] answers[i], class, #[trigger] path[k])
}

/// Whether a record is an alias of one of the names.
pub open spec fn on_path(r: RecordModel, class: u16, path: Seq<NameModel>) -> bool {
    exists|k: int| 0 <= k < path.len() && aliases(r, class, #[trigger] path[k])
}

/// Whether a record holds an address for a question: of its class, of one of the
/// names, and of the family that the type asks for, 1 for IPv4 and 28 for IPv6.
pub open spec fn holds_address(
    r: RecordModel,
    class: u16,
    query_type: u16,
    path: Seq<NameModel>,
) -> bool {
    &&& r.dns_class == class
    &&& exists|k: int| 0 <= k < path.len() && same(r.name, #[trigger] path[k])
    &&& (query_type == 1 && r.data is A) || (query_type == 28 && r.data is Aaaa)
}

/// The address that a record holds.
pub open spec fn held(r: RecordModel) -> IpAddr {
    match r.data {
        DataModel::A(a) => IpAddr::V4(a),
        DataModel::Aaaa(a) => IpAddr::V6(a),
        _ => IpAddr::V4(0),
    }
}

spec fn canon(path: Seq<NameModel>) -> Seq<NameModel> {
    path.map_values(|n: NameModel| canonical(n))
}

/// Whether a life is the least of `first` and of the lives of some records.
spec fn least(
    t: Option<u32>,
    first: Option<u32>,
    answers: Seq<RecordModel>,
    counts: spec_fn(RecordModel) -> bool,
) -> bool {
    &&& t is None ==> first is None && forall|i: int|
        0 <= i < answers.len() ==> !counts(#[trigger] answers[i])
    &&& t matches Some(x) ==> {
        &&& first matches Some(y) ==> x <= y
        &&& forall|i: int|
            0 <= i < answers.len() && counts(#[trigger] answers[i]) ==> x <= answers[i].ttl
        &&& first == Some(x) || exists|i: int|
            0 <= i < answers.len() && counts(#[trigger] answers[i]) && answers[i].ttl == x
    }
}

spec fn from_place(class: u16, path: Seq<NameModel>, k: int) -> spec_fn(RecordModel) -> bool {
    |r: RecordModel| on_path(r, class, path.skip(k))
}

proof fn lemma_alias(r: RecordModel, class: u16, name: NameModel)
    ensures
        is_alias_of(r, class, canonical(name)) == aliases(r, class, name),
{
    lemma_same(r.name, name);
}

proof fn lemma_path_link(answers: Seq<RecordModel>, class: u16, path: Seq<NameModel>, k: int)
    requires
        is_path(answers, class, path),
        0 <= k < path.len(),
    ensures
        ({
            let l = link_of(answers, class, canonical(path[k]));
            &&& k == path.len() - 1 ==> l is None
            &&& k < path.len() - 1 ==> l is Some && !l->0.ambiguous && l->0.target == canonical(
                path[k + 1],
            ) && (forall|i: int|
                0 <= i < answers.len() && aliases(#[trigger] answers[i], class, path[k])
                    ==> l->0.ttl <= answers[i].ttl) && exists|i: int|
                0 <= i < answers.len() && aliases(#[trigger] answers[i], class, path[k])
                    && answers[i].ttl == l->0.ttl
        }),
{
    let owner = canonical(path[k]);
    let l = link_of(answers, class, owner);
    lemma_link(answers, class, owner);
    assert forall|r: RecordModel| #[trigger] answers.contains(r) && is_alias_of(
        r,
        class,
        owner,
    ) implies k + 1 < path.len() && canonical(r.data->Cname_0) == canonical(path[k + 1]) by {
        let i = choose|i: int| 0 <= i < answers.len() && answers[i] == r;
        lemma_alias(r, class, path[k]);
        assert(aliases(answers[i], class, path[k]));
        lemma_same(r.data->Cname_0, path[k + 1]);
    }
    if k == path.len() - 1 {
        if l is Some {
            let r = choose|r: RecordModel|
                #[trigger] answers.contains(r) && is_alias_of(r, class, owner) && canonical(
                    r.data->Cname_0,
                ) == l->0.target;
            assert(answers.contains(r));
        }
    } else {
        let i = choose|i: int|
            0 <= i < answers.len() && aliases(#[trigger] answers[i], class, path[k]);
        lemma_alias(answers[i], class, path[k]);
        assert(answers.contains(answers[i]));
        assert(l is Some);
        if l->0.ambiguous {
            let (r, s) = choose|r: RecordModel, s: RecordModel|
                #[trigger] answers.contains(r) && #[trigger] answers.contains(s) && is_alias_of(
                    r,
                    class,
                    owner,
                ) && is_alias_of(s, class, owner) && canonical(r.data->Cname_0) != canonical(
                    s.data->Cname_0,
                );
            assert(false);
        }
        assert forall|j: int|
            0 <= j < answers.len() && aliases(
                #[trigger] answers[j],
                class,
                path[k],
            ) implies l->0.ttl <= answers[j].ttl by {
            lemma_alias(answers[j], class, path[k]);
            assert(answers.contains(answers[j]));
        }
        let t = choose|r: RecordModel|
            #[trigger] answers.contains(r) && is_alias_of(r, class, owner) && r.ttl == l->0.ttl;
        let j = choose|j: int| 0 <= j < answers.len() && answers[j] == t;
        lemma_alias(t, class, path[k]);
        assert(aliases(answers[j], class, path[k]));
    }
}

proof fn lemma_follow_path(
    answers: Seq<RecordModel>,
    class: u16,
    path: Seq<NameModel>,
    k: int,
    ttl: Option<u32>,
    fuel: nat,
)
    requires
        is_path(answers, class, path),
        0 <= k < path.len(),
        fuel >= path.len() - k,
    ensures
        ({
            let f = follow(
                answers,
                class,
                canonical(path[k]),
                canon(path.take(k)),
                ttl,
                fuel,
            );
            f is Some && (f->0).0 == canon(path) && least(
                (f->0).1,
                ttl,
                answers,
                from_place(class, path, k),
            )
        }),
    decreases path.len() - k,
{
    let current = canonical(path[k]);
    let visited = canon(path.take(k));
    assert(!visited.contains(current)) by {
        if visited.contains(current) {
            let j = choose|j: int| 0 <= j < visited.len() && visited[j] == current;
            assert(path.take(k)[j] == path[j]);
            lemma_same(path[j], path[k]);
        }
    }
    assert(visited.push(current) =~= canon(path.take(k + 1)));
    lemma_path_link(answers, class, path, k);
    let counts = from_place(class, path, k);
    if k == path.len() - 1 {
        assert(path.take(k + 1) =~= path);
        assert forall|i: int| 0 <= i < answers.len() implies !counts(#[trigger] answers[i]) by {
            if counts(answers[i]) {
                let j = choose|j: int|
                    0 <= j < path.skip(k).len() && aliases(
                        answers[i],
                        class,
                        #[trigger] path.skip(k)[j],
                    );
                assert(path.skip(k)[j] == path[k + j]);
                assert(aliases(answers[i], class, path[k + j]));
            }
        }
    } else {
        let l = link_of(answers, class, current)->0;
        let next = min_opt(ttl, l.ttl);
        lemma_follow_path(answers, class, path, k + 1, next, (fuel - 1) as nat);
        let later = from_place(class, path, k + 1);
        let f = follow(
            answers,
            class,
            canonical(path[k + 1]),
            canon(path.take(k + 1)),
            next,
            (fuel - 1) as nat,
        );
        let x = ((f->0).1)->0;
        assert forall|r: RecordModel| #[trigger] counts(r) == (aliases(r, class, path[k]) || later(
            r,
        )) by {
            if counts(r) {
                let j = choose|j: int|
                    0 <= j < path.skip(k).len() && aliases(r, class, #[trigger] path.skip(k)[j]);
                if j > 0 {
                    assert(path.skip(k + 1)[j - 1] == path.skip(k)[j]);
                } else {
                    assert(path.skip(k)[0] == path[k]);
                }
            }
            if aliases(r, class, path[k]) {
                assert(path.skip(k)[0] == path[k]);
            }
            if later(r) {
                let j = choose|j: int|
                    0 <= j < path.skip(k + 1).len() && aliases(
                        r,
                        class,
                        #[trigger] path.skip(k + 1)[j],
                    );
                assert(path.skip(k)[j + 1] == path.skip(k + 1)[j]);
            }
        }
        assert forall|i: int| 0 <= i < answers.len() && counts(#[trigger] answers[i]) implies x
            <= answers[i].ttl by {
            if !later(answers[i]) {
                assert(aliases(answers[i], class, path[k]));
            }
        }
        if next == Some(x) && ttl != Some(x) {
            let i = choose|i: int|
                0 <= i < answers.len() && aliases(#[trigger] answers[i], class, path[k])
                    && answers[i].ttl == l.ttl;
            assert(counts(answers[i]));
        } else if next != Some(x) {
            let i = choose|i: int|
                0 <= i < answers.len() && later(#[trigger] answers[i]) && answers[i].ttl == x;
            assert(counts(answers[i]));
        }
    }
}

spec fn wanted(class: u16, query_type: u16, path: Seq<NameModel>) -> spec_fn(RecordModel) -> bool {
    |r: RecordModel| holds_address(r, class, query_type, path)
}

proof fn lemma_collect_path(
    answers: Seq<RecordModel>,
    q: QuestionModel,
    path: Seq<NameModel>,
    ttl: Option<u32>,
)
    requires
        q.query_type == 1 || q.query_type == 28,
    ensures
        ({
            let c = collect(answers, q, canon(path), ttl);
            let keep = wanted(q.query_class, q.query_type, path);
            &&& c.0 == answers.filter(keep).map_values(|r: RecordModel| held(r))
            &&& least(c.1, ttl, answers, keep)
        }),
    decreases answers.len(),
{
    reveal(Seq::filter);
    let keep = wanted(q.query_class, q.query_type, path);
    let c = collect(answers, q, canon(path), ttl);
    if answers.len() == 0 {
        assert(c.0 =~= answers.filter(keep).map_values(|r: RecordModel| held(r)));
    } else {
        let head = answers.drop_last();
        let r = answers.last();
        let before = collect(head, q, canon(path), ttl);
        lemma_collect_path(head, q, path, ttl);
        assert(answers =~= head.push(r));
        assert(canon(path).contains(canonical(r.name)) == exists|k: int|
            0 <= k < path.len() && same(r.name, #[trigger] path[k])) by {
            if canon(path).contains(canonical(r.name)) {
                let k = choose|k: int|
                    0 <= k < canon(path).len() && canon(path)[k] == canonical(r.name);
                lemma_same(r.name, path[k]);
                assert(same(r.name, path[k]));
            }
            if exists|k: int| 0 <= k < path.len() && same(r.name, #[trigger] path[k]) {
                let k = choose|k: int| 0 <= k < path.len() && same(r.name, #[trigger] path[k]);
                lemma_same(r.name, path[k]);
                assert(canon(path)[k] == canonical(r.name));
            }
        }
        assert(answers_question(r, q, canon(path)) == keep(r));
        assert(c.0 =~= answers.filter(keep).map_values(|r: RecordModel| held(r)));
        assert forall|i: int| 0 <= i < head.len() implies #[trigger] answers[i] == head[i] by {}
        assert(answers[answers.len() - 1] == r);
        if c.1 is Some {
            let x = c.1->0;
            assert forall|i: int| 0 <= i < answers.len() && keep(#[trigger] answers[i]) implies x
                <= answers[i].ttl by {
                if i < head.len() {
                    assert(keep(head[i]));
                }
            }
            if ttl != Some(x) {
                if keep(r) && r.ttl == x {
                    assert(keep(answers[answers.len() - 1]));
                } else {
                    let i = choose|i: int|
                        0 <= i < head.len() && keep(#[trigger] head[i]) && head[i].ttl == x;
                    assert(keep(answers[i]) && answers[i].ttl == x);
                }
            }
        } else {
            assert forall|i: int| 0 <= i < answers.len() implies !keep(#[trigger] answers[i]) by {
                if i < head.len() {
                    assert(!keep(head[i]));
                }
            }
        }
    }
}

proof fn lemma_path_fits(answers: Seq<RecordModel>, class: u16, path: Seq<NameModel>)
    requires
        is_path(answers, class, path),
    ensures
        path.len() <= answers.len() + 1,
{
    let owned = canon(path.drop_last());
    assert(owned.no_duplicates()) by {
        assert forall|i: int, j: int| 0 <= i < owned.len() && 0 <= j < owned.len() && i
            != j implies owned[i] != owned[j] by {
            let a = if i < j {
                i
            } else {
                j
            };
            let b = if i < j {
                j
            } else {
                i
            };
            assert(path.drop_last()[a] == path[a] && path.drop_last()[b] == path[b]);
            assert(!same(path[a], path[b]));
            lemma_same(path[a], path[b]);
        }
    }
    assert forall|k: int| 0 <= k < owned.len() implies owners(answers).contains(
        #[trigger] owned[k],
    ) by {
        assert(path.drop_last()[k] == path[k]);
        let i = choose|i: int|
            0 <= i < answers.len() && aliases(#[trigger] answers[i], class, path[k]);
        lemma_same(answers[i].name, path[k]);
        assert(owners(answers)[i] == canonical(answers[i].name));
    }
    lemma_visited_bound(owned, owners(answers));
}

/// Of a response whose aliases lead from the question's name along a path, every
/// address of the family asked for that stands under a name of the path is taken,
/// and no other, in the order of the records.
pub proof fn law_addresses_taken(
    message: &DnsMessage,
    out: (Vec<IpAddr>, Option<u32>),
    path: Seq<NameModel>,
)
    requires
        call_ensures(relevant_ip_answers, (message,), out),
        message@.queries.len() > 0,
        message@.queries[0].query_type == 1 || message@.queries[0].query_type == 28,
        is_path(message@.answers, message@.queries[0].query_class, path),
        same(message@.queries[0].name, path[0]),
    ensures
        ({
            let q = message@.queries[0];
            let class = q.query_class;
            let t = q.query_type;
            &&& out.0@ == message@.answers.filter(
                |r: RecordModel| holds_address(r, class, t, path),
            ).map_values(|r: RecordModel| held(r))
            &&& forall|i: int|
                0 <= i < message@.answers.len() && #[trigger] holds_address(
                    message@.answers[i],
                    class,
                    t,
                    path,
                ) ==> out.0@.contains(held(message@.answers[i]))
        }),
{
    let m = message@;
    let q = m.queries[0];
    lemma_path_fits(m.answers, q.query_class, path);
    lemma_same(q.name, path[0]);
    assert(canon(path.take(0)) =~= Seq::empty());
    lemma_follow_path(m.answers, q.query_class, path, 0, None, m.answers.len() + 1);
    let chain = alias_chain(m.answers, q)->0;
    lemma_collect_path(m.answers, q, path, chain.1);
    let keep = |r: RecordModel| holds_address(r, q.query_class, q.query_type, path);
    assert(keep =~= wanted(q.query_class, q.query_type, path));
    let kept = m.answers.filter(keep);
    assert forall|i: int|
        0 <= i < m.answers.len() && #[trigger] holds_address(
            m.answers[i],
            q.query_class,
            q.query_type,
            path,
        ) implies out.0@.contains(held(m.answers[i])) by {
        assert(keep(m.answers[i]));
        m.answers.lemma_filter_contains(keep, i);
        let j = choose|j: int| 0 <= j < kept.len() && kept[j] == m.answers[i];
        assert(out.0@[j] == held(kept[j]));
    }
}

/// The addresses of a response may be kept for as long as every record that led
/// to them: the aliases of the path and the addresses themselves.
pub proof fn law_life_of_addresses(
    message: &DnsMessage,
    out: (Vec<IpAddr>, Option<u32>),
    path: Seq<NameModel>,
)
    requires
        call_ensures(relevant_ip_answers, (message,), out),
        message@.queries.len() > 0,
        message@.queries[0].query_type == 1 || message@.queries[0].query_type == 28,
        is_path(message@.answers, message@.queries[0].query_class, path),
        same(message@.queries[0].name, path[0]),
    ensures
        ({
            let q = message@.queries[0];
            let a = message@.answers;
            &&& out.1 is None ==> forall|i: int|
                0 <= i < a.len() ==> !leads(#[trigger] a[i], q.query_class, q.query_type, path)
            &&& out.1 matches Some(x) ==> (forall|i: int|
                0 <= i < a.len() && leads(#[trigger] a[i], q.query_class, q.query_type, path) ==> x
                    <= a[i].ttl) && exists|i: int|
                0 <= i < a.len() && leads(#[trigger] a[i], q.query_class, q.query_type, path)
                    && a[i].ttl == x
        }),
{
    let m = message@;
    let q = m.queries[0];
    let a = m.answers;
    lemma_path_fits(a, q.query_class, path);
    lemma_same(q.name, path[0]);
    assert(canon(path.take(0)) =~= Seq::empty());
    lemma_follow_path(a, q.query_class, path, 0, None, a.len() + 1);
    assert(path.skip(0) =~= path);
    let links = from_place(q.query_class, path, 0);
    let chain = alias_chain(a, q)->0;
    lemma_collect_path(a, q, path, chain.1);
    let keep = wanted(q.query_class, q.query_type, path);
    assert forall|r: RecordModel| #[trigger] leads(r, q.query_class, q.query_type, path) == (keep(r)
        || links(r)) by {}
    if out.1 is Some {
        let x = out.1->0;
        assert forall|i: int|
            0 <= i < a.len() && leads(
                #[trigger] a[i],
                q.query_class,
                q.query_type,
                path,
            ) implies x <= a[i].ttl by {
            if links(a[i]) {
                assert(chain.1 is Some);
            } else {
                assert(keep(a[i]));
            }
        }
        if chain.1 == Some(x) {
            let i = choose|i: int| 0 <= i < a.len() && links(#[trigger] a[i]) && a[i].ttl == x;
            assert(leads(a[i], q.query_class, q.query_type, path));
        } else {
            let i = choose|i: int| 0 <= i < a.len() && keep(#[trigger] a[i]) && a[i].ttl == x;
            assert(leads(a[i], q.query_class, q.query_type, path));
        }
    } else {
        assert forall|i: int| 0 <= i < a.len() implies !leads(
            #[trigger] a[i],
            q.query_class,
            q.query_type,
            path,
        ) by {
            assert(!keep(a[i]) && !links(a[i]));
        }
    }
}

/// Whether a record is an alias on the path or one of the addresses.
pub open spec fn leads(r: RecordModel, class: u16, query_type: u16, path: Seq<NameModel>) -> bool {
    on_path(r, class, path) || holds_address(r, class, query_type, path)
}

/// A question that asks for no address, or a message without one, has no
/// addresses.
pub proof fn law_no_address_asked(message: &DnsMessage, out: (Vec<IpAddr>, Option<u32>))
    requires
        call_ensures(relevant_ip_answers, (message,), out),
        message@.queries.len() == 0 || (message@.queries[0].query_type != 1
            && message@.queries[0].query_type != 28),
    ensures
        out.0@.len() == 0,
        out.1 is None,
{
}

} // verus!
