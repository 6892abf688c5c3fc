//! Which addresses of a response answer its question, and for how long.
use crate::dns::families::{TYPE_A, TYPE_AAAA};
use crate::dns::message::{
    DataModel, DnsMessage, DnsName, MessageModel, NameModel, QuestionModel, Record, RecordData,
    RecordModel,
};
use crate::dns::message;
use crate::net::IpAddr;
use vstd::hash_map::StringHashMap;
use vstd::prelude::*;

verus! {

// ---------------------------------------------------------------------------
// Names
// ---------------------------------------------------------------------------

/// An ASCII letter in lower case; every other byte as it is.
pub open spec fn lower_byte(b: u8) -> u8 {
    if 0x41 <= b <= 0x5a {
        (b + 0x20) as u8
    } else {
        b
    }
}

/// A label with its ASCII letters in lower case.
pub open spec fn lower_label(l: Seq<u8>) -> Seq<u8> {
    l.map_values(|b: u8| lower_byte(b))
}

/// A name with its ASCII letters in lower case. Two names are the same if this
/// form is.
pub open spec fn canonical(n: NameModel) -> NameModel {
    n.map_values(|l: Seq<u8>| lower_label(l))
}

fn to_lower_byte(b: u8) -> (r: u8)
    ensures
        r == lower_byte(b),
{
    if 0x41 <= b && b <= 0x5a {
        b + 0x20
    } else {
        b
    }
}

proof fn lemma_canonical_twice(n: NameModel)
    ensures
        canonical(canonical(n)) == canonical(n),
{
    assert forall|i: int| 0 <= i < n.len() implies #[trigger] canonical(canonical(n))[i]
        == canonical(n)[i] by {
        assert(lower_label(lower_label(n[i])) =~= lower_label(n[i]));
    }
    assert(canonical(canonical(n)) =~= canonical(n));
}

/// The name in lower case.
pub fn canonical_name(name: &DnsName) -> (out: DnsName)
    ensures
        out@ == canonical(name@),
        canonical(out@) == out@,
{
    let mut labels: Vec<Vec<u8>> = Vec::new();
    let mut i: usize = 0;
    while i < name.labels.len()
        invariant
            i <= name.labels@.len(),
            labels@.len() == i,
            forall|j: int|
                0 <= j < i ==> (#[trigger] labels@[j])@ == lower_label(name.labels@[j]@),
        decreases name.labels@.len() - i,
    {
        let from = &name.labels[i];
        let mut label: Vec<u8> = Vec::new();
        let mut j: usize = 0;
        while j < from.len()
            invariant
                j <= from@.len(),
                label@ == lower_label(from@.take(j as int)),
            decreases from@.len() - j,
        {
            label.push(to_lower_byte(from[j]));
            assert(lower_label(from@.take(j + 1)) =~= lower_label(from@.take(j as int)).push(
                lower_byte(from@[j as int]),
            ));
            j += 1;
        }
        assert(from@.take(j as int) =~= from@);
        labels.push(label);
        i += 1;
    }
    let out = DnsName { labels };
    assert(out@ =~= canonical(name@));
    proof {
        lemma_canonical_twice(name@);
    }
    out
}

/// Whether two labels are the same up to ASCII case.
fn same_label(a: &Vec<u8>, b: &Vec<u8>) -> (r: bool)
    ensures
        r == (lower_label(a@) == lower_label(b@)),
{
    if a.len() != b.len() {
        assert(lower_label(a@).len() != lower_label(b@).len());
        return false;
    }
    let mut i: usize = 0;
    while i < a.len()
        invariant
            i <= a@.len(),
            a@.len() == b@.len(),
            forall|j: int| 0 <= j < i ==> lower_byte(#[trigger] a@[j]) == lower_byte(b@[j]),
        decreases a@.len() - i,
    {
        if to_lower_byte(a[i]) != to_lower_byte(b[i]) {
            assert(lower_label(a@)[i as int] != lower_label(b@)[i as int]);
            return false;
        }
        i += 1;
    }
    assert(lower_label(a@) =~= lower_label(b@));
    true
}

/// Whether two names are the same up to ASCII case.
pub fn same_name(a: &DnsName, b: &DnsName) -> (r: bool)
    ensures
        r == (canonical(a@) == canonical(b@)),
{
    if a.labels.len() != b.labels.len() {
        assert(canonical(a@).len() != canonical(b@).len());
        return false;
    }
    let mut i: usize = 0;
    while i < a.labels.len()
        invariant
            i <= a.labels@.len(),
            a.labels@.len() == b.labels@.len(),
            forall|j: int|
                0 <= j < i ==> lower_label((#[trigger] a.labels@[j])@) == lower_label(
                    b.labels@[j]@,
                ),
        decreases a.labels@.len() - i,
    {
        if !same_label(&a.labels[i], &b.labels[i]) {
            assert(canonical(a@)[i as int] != canonical(b@)[i as int]);
            return false;
        }
        i += 1;
    }
    assert(canonical(a@) =~= canonical(b@));
    true
}

// ---------------------------------------------------------------------------
// Alias chains
// ---------------------------------------------------------------------------

/// What the alias records of one owner say.
#[verifier::ext_equal]
pub struct LinkModel {
    pub target: NameModel,
    pub ttl: u32,
    /// The records name different targets.
    pub ambiguous: bool,
}

/// Whether a record is an alias of `owner` (given in lower case).
pub open spec fn is_alias_of(r: RecordModel, class: u16, owner: NameModel) -> bool {
    r.dns_class == class && r.data is Cname && canonical(r.name) == owner
}

/// The smaller of two numbers.
pub open spec fn min32(a: u32, b: u32) -> u32 {
    if a <= b {
        a
    } else {
        b
    }
}

/// The alias link of `owner` (given in lower case): the target of its first
/// alias record, the least life of the records with that target, and whether
/// another record names another target.
pub open spec fn link_of(answers: Seq<RecordModel>, class: u16, owner: NameModel) -> Option<
    LinkModel,
>
    decreases answers.len(),
{
    if answers.len() == 0 {
        None
    } else {
        let before = link_of(answers.drop_last(), class, owner);
        let r = answers.last();
        if is_alias_of(r, class, owner) {
            let target = canonical(r.data->Cname_0);
            match before {
                None => Some(LinkModel { target, ttl: r.ttl, ambiguous: false }),
                Some(l) => if l.target == target {
                    Some(LinkModel { ttl: min32(l.ttl, r.ttl), ..l })
                } else {
                    Some(LinkModel { ambiguous: true, ..l })
                },
            }
        } else {
            before
        }
    }
}

/// The least of an optional number and a number.
pub open spec fn min_opt(a: Option<u32>, b: u32) -> Option<u32> {
    match a {
        Some(x) => Some(min32(x, b)),
        None => Some(b),
    }
}

/// Follows the aliases from `current`: the names on the way and the least life
/// of the links, or nothing where the aliases run in a circle or a link is
/// ambiguous. `fuel` bounds the number of names.
pub open spec fn follow(
    answers: Seq<RecordModel>,
    class: u16,
    current: NameModel,
    visited: Seq<NameModel>,
    ttl: Option<u32>,
    fuel: nat,
) -> Option<(Seq<NameModel>, Option<u32>)>
    decreases fuel,
{
    if fuel == 0 || visited.contains(current) {
        None
    } else {
        let names = visited.push(current);
        match link_of(answers, class, current) {
            None => Some((names, ttl)),
            Some(l) => if l.ambiguous {
                None
            } else {
                follow(
                    answers,
                    class,
                    l.target,
                    names,
                    min_opt(ttl, l.ttl),
                    (fuel - 1) as nat,
                )
            },
        }
    }
}

/// The names that answer a question, from its own name along the aliases: a
/// chain visits at most one name more than there are records.
pub open spec fn alias_chain(answers: Seq<RecordModel>, q: QuestionModel) -> Option<
    (Seq<NameModel>, Option<u32>),
> {
    follow(answers, q.query_class, canonical(q.name), Seq::empty(), None, answers.len() + 1)
}

/// The address of a record, where it is of the type asked for.
pub open spec fn address_of(r: RecordModel, query_type: u16) -> Option<IpAddr> {
    match r.data {
        DataModel::A(a) => if query_type == TYPE_A {
            Some(IpAddr::V4(a))
        } else {
            None
        },
        DataModel::Aaaa(a) => if query_type == TYPE_AAAA {
            Some(IpAddr::V6(a))
        } else {
            None
        },
        _ => None,
    }
}

/// Whether a record answers the question with an address.
pub open spec fn answers_question(
    r: RecordModel,
    q: QuestionModel,
    names: Seq<NameModel>,
) -> bool {
    r.dns_class == q.query_class && names.contains(canonical(r.name)) && address_of(
        r,
        q.query_type,
    ) is Some
}

/// The addresses of the records that answer the question, in their order, and
/// the least of `ttl` and the records' lives.
pub open spec fn collect(
    answers: Seq<RecordModel>,
    q: QuestionModel,
    names: Seq<NameModel>,
    ttl: Option<u32>,
) -> (Seq<IpAddr>, Option<u32>)
    decreases answers.len(),
{
    if answers.len() == 0 {
        (Seq::empty(), ttl)
    } else {
        let before = collect(answers.drop_last(), q, names, ttl);
        let r = answers.last();
        if answers_question(r, q, names) {
            (before.0.push(address_of(r, q.query_type)->0), min_opt(before.1, r.ttl))
        } else {
            before
        }
    }
}

/// The addresses that answer the message's first question and how long they
/// may be kept: those of the question's own name and of the names that it is
/// an alias of. There are none when the aliases run in a circle or contradict
/// each other, and none for a question that does not ask for addresses.
pub open spec fn relevant(m: MessageModel) -> (Seq<IpAddr>, Option<u32>) {
    if m.queries.len() == 0 || (m.queries[0].query_type != TYPE_A && m.queries[0].query_type
        != TYPE_AAAA) {
        (Seq::empty(), None)
    } else {
        match alias_chain(m.answers, m.queries[0]) {
            None => (Seq::empty(), None),
            Some(chain) => collect(m.answers, m.queries[0], chain.0, chain.1),
        }
    }
}

/// An alias link, see [`LinkModel`].
struct CnameLink {
    target: DnsName,
    ttl: u32,
    ambiguous: bool,
}

impl View for CnameLink {
    type V = LinkModel;

    closed spec fn view(&self) -> LinkModel {
        LinkModel { target: self.target@, ttl: self.ttl, ambiguous: self.ambiguous }
    }
}

/// The byte of a label as a character.
pub open spec fn label_chars(l: Seq<u8>) -> Seq<char> {
    l.map_values(|b: u8| b as char)
}

/// The text by which a name is found again: its labels, each closed by a
/// character that is no byte.
pub open spec fn name_key(n: NameModel) -> Seq<char>
    decreases n.len(),
{
    if n.len() == 0 {
        Seq::empty()
    } else {
        name_key(n.drop_last()) + label_chars(n.last()) + seq!['\u{100}']
    }
}

/// Different names have different keys.
proof fn lemma_name_key(a: NameModel, b: NameModel)
    requires
        name_key(a) == name_key(b),
    ensures
        a == b,
    decreases a.len(),
{
    let k = name_key(a);
    if a.len() == 0 || b.len() == 0 {
        assert(k.len() == 0);
        assert(a =~= b);
    } else {
        let (fa, la) = (name_key(a.drop_last()), label_chars(a.last()));
        let (fb, lb) = (name_key(b.drop_last()), label_chars(b.last()));
        assert(k == fa + la + seq!['\u{100}']);
        assert(k == fb + lb + seq!['\u{100}']);
        if la.len() < lb.len() {
            let at = k.len() - 2 - la.len();
            assert(fa.last() == '\u{100}');
            assert(k[at] == fa.last());
            assert(k[at] == lb[at - fb.len()]);
            assert(lb[at - fb.len()] == b.last()[at - fb.len()] as char);
        } else if lb.len() < la.len() {
            let at = k.len() - 2 - lb.len();
            assert(fb.last() == '\u{100}');
            assert(k[at] == fb.last());
            assert(k[at] == la[at - fa.len()]);
            assert(la[at - fa.len()] == a.last()[at - fa.len()] as char);
        }
        assert(fa =~= fb) by {
            assert(fa =~= k.take(fa.len() as int));
            assert(fb =~= k.take(fb.len() as int));
        }
        assert(la =~= lb) by {
            assert(la =~= k.subrange(fa.len() as int, k.len() - 1));
            assert(lb =~= k.subrange(fb.len() as int, k.len() - 1));
        }
        assert(a.last() =~= b.last()) by {
            assert forall|i: int| 0 <= i < a.last().len() implies a.last()[i] == b.last()[i] by {
                assert(la[i] == a.last()[i] as char);
                assert(lb[i] == b.last()[i] as char);
            }
        }
        lemma_name_key(a.drop_last(), b.drop_last());
        assert(a =~= a.drop_last().push(a.last()));
        assert(b =~= b.drop_last().push(b.last()));
    }
}

/// The key of a name in lower case.
fn key_of(name: &DnsName) -> (key: String)
    ensures
        key@ == name_key(canonical(name@)),
{
    let ghost model = canonical(name@);
    let mut key = String::new();
    let mut i: usize = 0;
    assert(model.take(0) =~= Seq::empty());
    while i < name.labels.len()
        invariant
            i <= name.labels@.len(),
            model == canonical(name@),
            key@ == name_key(model.take(i as int)),
        decreases name.labels@.len() - i,
    {
        let label = &name.labels[i];
        let ghost front = key@;
        let ghost low = lower_label(label@);
        assert(model[i as int] == low);
        let mut j: usize = 0;
        assert(front + label_chars(low.take(0)) =~= front);
        while j < label.len()
            invariant
                j <= label@.len(),
                low == lower_label(label@),
                key@ == front + label_chars(low.take(j as int)),
            decreases label@.len() - j,
        {
            key.push(to_lower_byte(label[j]) as char);
            assert(low[j as int] == lower_byte(label@[j as int]));
            assert(key@ =~= front + label_chars(low.take(j + 1)));
            j += 1;
        }
        assert(low.take(j as int) =~= low);
        key.push('\u{100}');
        assert(model.take(i + 1).drop_last() =~= model.take(i as int));
        assert(key@ =~= front + label_chars(low) + seq!['\u{100}']);
        i += 1;
    }
    assert(model.take(i as int) =~= model);
    key
}

/// Whether an index holds just what some records say of an owner.
spec fn indexes(
    index: Map<Seq<char>, CnameLink>,
    answers: Seq<RecordModel>,
    class: u16,
    owner: NameModel,
) -> bool {
    match link_of(answers, class, owner) {
        Some(l) => {
            &&& index.contains_key(name_key(owner))
            &&& index[name_key(owner)]@ == l
            &&& canonical(l.target) == l.target
        },
        None => !index.contains_key(name_key(owner)),
    }
}

/// The alias links of all owners, in one pass over the records.
fn index_links(answers: &Vec<Record>, class: u16) -> (index: StringHashMap<CnameLink>)
    ensures
        forall|owner: NameModel|
            #[trigger] indexes(index@, message::records_of(answers@), class, owner),
{
    let ghost all = message::records_of(answers@);
    let mut index: StringHashMap<CnameLink> = StringHashMap::new();
    let mut i: usize = 0;
    while i < answers.len()
        invariant
            i <= answers@.len(),
            all == message::records_of(answers@),
            forall|owner: NameModel|
                #[trigger] indexes(index@, all.take(i as int), class, owner),
        decreases answers@.len() - i,
    {
        let r = &answers[i];
        let ghost before = index@;
        let ghost done = all.take(i as int);
        let ghost more = all.take(i + 1);
        assert(more.drop_last() =~= done);
        assert(more.last() == r@);
        let mut alias = false;
        if r.dns_class == class {
            if let RecordData::Cname(target) = &r.data {
                alias = true;
                let ghost owner = canonical(r.name@);
                let key = key_of(&r.name);
                let target = canonical_name(target);
                assert(indexes(before, done, class, owner));
                let link = match index.get(key.as_str()) {
                    None => CnameLink { target, ttl: r.ttl, ambiguous: false },
                    Some(l) => {
                        if same_name(&l.target, &target) {
                            let ttl: u32 = if l.ttl <= r.ttl {
                                l.ttl
                            } else {
                                r.ttl
                            };
                            CnameLink { target, ttl, ambiguous: l.ambiguous }
                        } else {
                            CnameLink {
                                target: canonical_name(&l.target),
                                ttl: l.ttl,
                                ambiguous: true,
                            }
                        }
                    },
                };
                assert(link_of(more, class, owner) == Some(link@));
                index.insert(key, link);
                assert forall|o: NameModel| #[trigger] indexes(index@, more, class, o) by {
                    assert(indexes(before, done, class, o));
                    if o != owner && name_key(o) == name_key(owner) {
                        lemma_name_key(o, owner);
                    }
                }
            }
        }
        if !alias {
            assert forall|o: NameModel| #[trigger] indexes(index@, more, class, o) by {
                assert(indexes(before, done, class, o));
            }
        }
        i += 1;
    }
    assert(all.take(i as int) =~= all);
    index
}

/// Whether some keys are those of just these names.
spec fn keys_of(keys: Map<Seq<char>, bool>, names: Seq<NameModel>) -> bool {
    forall|n: NameModel| #[trigger] names.contains(n) == keys.contains_key(name_key(n))
}

/// The owners of records.
pub open spec fn owners(answers: Seq<RecordModel>) -> Seq<NameModel> {
    answers.map_values(|r: RecordModel| canonical(r.name))
}

proof fn lemma_link_has_owner(answers: Seq<RecordModel>, class: u16, owner: NameModel)
    requires
        link_of(answers, class, owner) is Some,
    ensures
        owners(answers).contains(owner),
    decreases answers.len(),
{
    let r = answers.last();
    if is_alias_of(r, class, owner) {
        assert(owners(answers)[answers.len() - 1] == owner);
    } else {
        lemma_link_has_owner(answers.drop_last(), class, owner);
        let i = choose|i: int|
            0 <= i < owners(answers.drop_last()).len() && owners(answers.drop_last())[i] == owner;
        assert(owners(answers)[i] == owner);
    }
}

/// Distinct names that all own records are at most as many as the records.
pub proof fn lemma_visited_bound(visited: Seq<NameModel>, all: Seq<NameModel>)
    requires
        visited.no_duplicates(),
        forall|i: int| 0 <= i < visited.len() ==> all.contains(#[trigger] visited[i]),
    ensures
        visited.len() <= all.len(),
{
    visited.unique_seq_to_set();
    all.lemma_cardinality_of_set();
    assert(visited.to_set().subset_of(all.to_set())) by {
        assert forall|n: NameModel| visited.to_set().contains(n) implies all.to_set().contains(
            n,
        ) by {
            let i = choose|i: int| 0 <= i < visited.len() && visited[i] == n;
            assert(all.contains(visited[i]));
        }
    }
    vstd::seq_lib::seq_to_set_is_finite(all);
    vstd::set_lib::lemma_len_subset(visited.to_set(), all.to_set());
}

/// The keys of the names that answer the question, and the least life of the
/// links; see [`alias_chain`]. The records are read once, however long the chain
/// is and in whatever order it stands.
fn follow_aliases(answers: &Vec<Record>, class: u16, name: &DnsName) -> (chain: Option<
    (StringHashMap<bool>, Option<u32>),
>)
    ensures
        match follow(
            message::records_of(answers@),
            class,
            canonical(name@),
            Seq::empty(),
            None,
            answers@.len() + 1,
        ) {
            Some((names, ttl)) => chain matches Some(c) && keys_of(c.0@, names) && c.1 == ttl,
            None => chain is None,
        },
{
    let ghost all = message::records_of(answers@);
    let ghost fuel = (answers@.len() + 1) as nat;
    let index = index_links(answers, class);
    let mut reached: StringHashMap<bool> = StringHashMap::new();
    let ghost mut visited: Seq<NameModel> = Seq::empty();
    let mut current = canonical_name(name);
    let mut ttl: Option<u32> = None;
    let ghost goal = follow(all, class, canonical(name@), Seq::empty(), None, fuel);
    loop
        invariant
            all == message::records_of(answers@),
            forall|owner: NameModel| #[trigger] indexes(index@, all, class, owner),
            fuel == answers@.len() + 1,
            visited.len() < fuel,
            canonical(current@) == current@,
            keys_of(reached@, visited),
            visited.no_duplicates(),
            forall|i: int| 0 <= i < visited.len() ==> owners(all).contains(#[trigger] visited[i]),
            goal == follow(all, class, canonical(name@), Seq::empty(), None, fuel),
            goal == follow(all, class, current@, visited, ttl, (fuel - visited.len()) as nat),
        decreases fuel - visited.len(),
    {
        let key = key_of(&current);
        let ghost cur = current@;
        assert(visited.contains(cur) == reached@.contains_key(key@));
        if reached.contains_key(key.as_str()) {
            return None;
        }
        let link = index.get(key.as_str());
        assert(indexes(index@, all, class, cur));
        let ghost before = visited;
        let ghost keys = reached@;
        proof {
            visited = before.push(cur);
        }
        let k = key.as_str().to_owned();
        reached.insert(k, true);
        assert(keys_of(reached@, visited)) by {
            assert forall|n: NameModel| #[trigger] visited.contains(n) == reached@.contains_key(
                name_key(n),
            ) by {
                assert(before.contains(n) == keys.contains_key(name_key(n)));
                if n != cur && name_key(n) == name_key(cur) {
                    lemma_name_key(n, cur);
                }
                if n == cur {
                    assert(visited[before.len() as int] == n);
                }
                if before.contains(n) {
                    let i = choose|i: int| 0 <= i < before.len() && before[i] == n;
                    assert(visited[i] == n);
                }
                if visited.contains(n) && n != cur {
                    let i = choose|i: int| 0 <= i < visited.len() && visited[i] == n;
                    assert(before[i] == n);
                }
            }
        }
        match link {
            None => {
                return Some((reached, ttl));
            },
            Some(l) => {
                if l.ambiguous {
                    return None;
                }
                proof {
                    lemma_link_has_owner(all, class, cur);
                    assert(visited.no_duplicates()) by {
                        assert forall|i: int, j: int|
                            0 <= i < visited.len() && 0 <= j < visited.len() && i
                                != j implies visited[i] != visited[j] by {
                            if i < before.len() && j < before.len() {
                                assert(visited[i] == before[i] && visited[j] == before[j]);
                            } else if i < before.len() {
                                assert(before.contains(before[i]));
                            } else {
                                assert(before.contains(before[j]));
                            }
                        }
                    }
                    assert forall|i: int| 0 <= i < visited.len() implies owners(all).contains(
                        #[trigger] visited[i],
                    ) by {
                        if i < before.len() {
                            assert(visited[i] == before[i]);
                        }
                    }
                    lemma_visited_bound(visited, owners(all));
                }
                ttl = match ttl {
                    Some(t) => Some(if t <= l.ttl { t } else { l.ttl }),
                    None => Some(l.ttl),
                };
                current = canonical_name(&l.target);
            },
        }
    }
}

/// The address of a record, if it holds one.
pub fn ip_from_record(rec: &Record) -> (ip: Option<IpAddr>)
    ensures
        ip == (match rec.data {
            RecordData::A(a) => Some(IpAddr::V4(a)),
            RecordData::Aaaa(a) => Some(IpAddr::V6(a)),
            _ => None,
        }),
{
    match &rec.data {
        RecordData::A(a) => Some(IpAddr::V4(*a)),
        RecordData::Aaaa(a) => Some(IpAddr::V6(*a)),
        _ => None,
    }
}

/// The addresses that answer the message's question, and the least life over
/// them and over the aliases that lead to them.
pub fn relevant_ip_answers(message: &DnsMessage) -> (out: (Vec<IpAddr>, Option<u32>))
    ensures
        (out.0@, out.1) == relevant(message@),
{
    if message.queries.len() == 0 {
        return (Vec::new(), None);
    }
    let question = &message.queries[0];
    assert(message@.queries[0] == question@);
    if question.query_type != TYPE_A && question.query_type != TYPE_AAAA {
        return (Vec::new(), None);
    }
    let ghost chain = alias_chain(message@.answers, question@);
    let (names, cname_ttl) = match follow_aliases(
        &message.answers,
        question.query_class,
        &question.name,
    ) {
        Some(chain) => chain,
        None => {
            return (Vec::new(), None);
        },
    };
    let ghost all = message::records_of(message.answers@);
    let ghost on_chain = (chain->0).0;
    let mut addrs: Vec<IpAddr> = Vec::new();
    let mut ttl: Option<u32> = cname_ttl;
    let mut i: usize = 0;
    assert(all.take(0) =~= Seq::empty());
    while i < message.answers.len()
        invariant
            i <= message.answers@.len(),
            all == message::records_of(message.answers@),
            keys_of(names@, on_chain),
            (addrs@, ttl) == collect(all.take(i as int), question@, on_chain, cname_ttl),
            question.query_type == TYPE_A || question.query_type == TYPE_AAAA,
        decreases message.answers@.len() - i,
    {
        let r = &message.answers[i];
        assert(all.take(i + 1).drop_last() =~= all.take(i as int));
        assert(all.take(i + 1).last() == r@);
        let key = key_of(&r.name);
        assert(on_chain.contains(canonical(r.name@)) == names@.contains_key(key@));
        if r.dns_class == question.query_class && names.contains_key(key.as_str()) {
            let matches_query = match &r.data {
                RecordData::A(_) => question.query_type == TYPE_A,
                RecordData::Aaaa(_) => question.query_type == TYPE_AAAA,
                _ => false,
            };
            if matches_query {
                if let Some(ip) = ip_from_record(r) {
                    addrs.push(ip);
                    ttl = match ttl {
                        Some(t) => Some(if t <= r.ttl { t } else { r.ttl }),
                        None => Some(r.ttl),
                    };
                }
            }
        }
        i += 1;
    }
    assert(all.take(i as int) =~= all);
    (addrs, ttl)
}

} // verus!
