//! What holds of every archive that is unpacked.
use crate::config::external_ui;
use crate::config::external_ui::{
    archive_names, common_top_level, entry_content, entry_is_dir, extract_zip, place_entry,
    plain_part, Extraction,
};
use crate::config::path_laws;
use crate::config::path_laws::{plain_name, plain_names, slashed};
use crate::config::safe_path;
use crate::text;
use crate::text_laws;
use vstd::prelude::*;

verus! {

/// Whether a name is a directory's, or that of something below it.
pub open spec fn in_or_below(name: Seq<char>, top: Seq<char>) -> bool {
    name == top || below(name, top)
}

/// Whether a name is that of something below a directory.
pub open spec fn below(name: Seq<char>, top: Seq<char>) -> bool {
    exists|rest: Seq<char>| name == #[trigger] (top + seq!['/'] + rest)
}

proof fn lemma_below(name: Seq<char>, top: Seq<char>)
    ensures
        below(name, top) <==> external_ui::is_under(name, top),
{
    reveal_strlit("/");
    let head = top + "/"@;
    assert(head =~= top + seq!['/']);
    if below(name, top) {
        let rest = choose|rest: Seq<char>| name == #[trigger] (top + seq!['/'] + rest);
        assert(name.take(head.len() as int) =~= head);
    }
    if external_ui::is_under(name, top) {
        let rest = name.skip(head.len() as int);
        assert(name =~= top + seq!['/'] + rest);
    }
}

proof fn lemma_top_piece(name: Seq<char>, top: Seq<char>)
    requires
        in_or_below(name, top),
        !top.contains('/'),
    ensures
        text::split_of(name, '/')[0] == top,
{
    if name == top {
        text_laws::lemma_first_piece(top, '/', Seq::empty());
    } else {
        let rest = choose|rest: Seq<char>| name == #[trigger] (top + seq!['/'] + rest);
        text_laws::lemma_first_piece(top, '/', rest);
    }
}

/// A directory that everything in an archive lies in is the archive's top, and
/// a name beside it leaves the archive without one.
pub proof fn law_shared_directory(
    names: &Vec<String>,
    top: Seq<char>,
    out: Option<String>,
)
    requires
        call_ensures(common_top_level, (names,), out),
        names@.len() > 0,
        in_or_below(names@[0]@, top),
        top.len() > 0,
        !top.contains('/'),
    ensures
        (forall|i: int| 0 <= i < names@.len() ==> in_or_below((#[trigger] names@[i])@, top)) && (
        exists|i: int| 0 <= i < names@.len() && below((#[trigger] names@[i])@, top)) ==> (
        out matches Some(t) && t@ == top),
        (exists|i: int| 0 <= i < names@.len() && !in_or_below((#[trigger] names@[i])@, top))
            ==> out is None,
        (forall|i: int| 0 <= i < names@.len() ==> !below((#[trigger] names@[i])@, top)) ==> out
            is None,
{
    let t = text::texts(names@);
    lemma_top_piece(names@[0]@, top);
    assert(t[0] == names@[0]@);
    assert forall|i: int| 0 <= i < names@.len() implies (below((#[trigger] names@[i])@, top)
        <==> external_ui::is_under(t[i], top)) by {
        lemma_below(names@[i]@, top);
    }
    if exists|i: int| 0 <= i < names@.len() && below((#[trigger] names@[i])@, top) {
        let i = choose|i: int| 0 <= i < names@.len() && below((#[trigger] names@[i])@, top);
        assert(external_ui::is_under(t[i], top));
    }
    if exists|i: int| 0 <= i < t.len() && external_ui::is_under(#[trigger] t[i], top) {
        let i = choose|i: int| 0 <= i < t.len() && external_ui::is_under(#[trigger] t[i], top);
        assert(below(names@[i]@, top));
    }
    if exists|i: int| 0 <= i < names@.len() && !in_or_below((#[trigger] names@[i])@, top) {
        let i = choose|i: int|
            0 <= i < names@.len() && !in_or_below((#[trigger] names@[i])@, top);
        assert(t[i] == names@[i]@);
        assert(!(t[i] == top || external_ui::is_under(t[i], top)));
    }
    if forall|i: int| 0 <= i < names@.len() ==> in_or_below((#[trigger] names@[i])@, top) {
        assert forall|i: int| 0 <= i < t.len() implies #[trigger] t[i] == top
            || external_ui::is_under(t[i], top) by {
            assert(in_or_below(names@[i]@, top));
        }
    }
}

/// What lies below the shared directory is placed without it; the directory
/// itself, and what is not to be opened, gets no place. Without a shared
/// directory everything is placed as it is.
pub proof fn law_placed(
    top: String,
    parts: Vec<String>,
    stripped: Option<Vec<String>>,
    whole: Option<Vec<String>>,
    none: Option<Vec<String>>,
)
    requires
        call_ensures(place_entry, (&Some(top), Some(parts)), stripped),
        call_ensures(place_entry, (&None::<String>, Some(parts)), whole),
        call_ensures(place_entry, (&Some(top), None::<Vec<String>>), none),
    ensures
        parts@.len() > 1 && parts@[0]@ == top@ ==> (stripped matches Some(p) && text::texts(p@)
            == text::texts(parts@).drop_first()),
        parts@.len() <= 1 || parts@[0]@ != top@ ==> stripped is None,
        whole matches Some(p) && text::texts(p@) == text::texts(parts@),
        none is None,
{
    let t = text::texts(parts@);
    assert(t.len() == parts@.len());
    if parts@.len() > 0 {
        assert(t[0] == parts@[0]@);
    }
}

proof fn lemma_outputs(
    bytes: Seq<u8>,
    names: Seq<Seq<char>>,
    opened: Seq<Option<Seq<Seq<char>>>>,
    n: nat,
    k: int,
)
    requires
        external_ui::may_open(names, opened),
        n <= names.len() <= usize::MAX,
        0 <= k < external_ui::unpacked(bytes, external_ui::shared_top(names), opened, n).0.len(),
    ensures
        ({
            let o = external_ui::unpacked(bytes, external_ui::shared_top(names), opened, n).0[k];
            &&& 0 <= o.entry < n
            &&& o.content is None ==> entry_is_dir(bytes, o.entry as usize) == Ok::<
                bool,
                Seq<char>,
            >(true)
            &&& o.content matches Some(c) ==> entry_is_dir(bytes, o.entry as usize) == Ok::<
                bool,
                Seq<char>,
            >(false) && entry_content(bytes, o.entry as usize) == Ok::<Seq<u8>, Seq<char>>(c)
        }),
    decreases n,
{
    let strip = external_ui::shared_top(names);
    let before = external_ui::unpacked(bytes, strip, opened, (n - 1) as nat);
    if k < before.0.len() {
        lemma_outputs(bytes, names, opened, (n - 1) as nat, k);
    }
}

/// Each output is an entry of the archive: a directory for a directory, and a
/// file with the entry's content for a file; and its place leads downwards by
/// names alone.
pub proof fn law_outputs_are_entries(bytes: &[u8], names: Seq<Seq<char>>, x: Extraction, k: int)
    requires
        call_ensures(extract_zip, (bytes,), x),
        archive_names(bytes@) == Some(names),
        names.len() <= usize::MAX,
        0 <= k < x.outputs@.len(),
    ensures
        ({
            let o = x.outputs@[k]@;
            &&& 0 <= o.entry < names.len()
            &&& plain_names(o.place)
            &&& o.content is None ==> entry_is_dir(bytes@, o.entry as usize) == Ok::<
                bool,
                Seq<char>,
            >(true)
            &&& o.content matches Some(c) ==> entry_is_dir(bytes@, o.entry as usize) == Ok::<
                bool,
                Seq<char>,
            >(false) && entry_content(bytes@, o.entry as usize) == Ok::<Seq<u8>, Seq<char>>(c)
        }),
{
    let opened = choose|opened: Seq<Option<Seq<Seq<char>>>>| #[trigger]
        external_ui::may_open(names, opened) && external_ui::unpacked(
            bytes@,
            external_ui::shared_top(names),
            opened,
            names.len(),
        ) == (
            external_ui::output_models(x.outputs@),
            text::opt_text(x.error),
            external_ui::broken_place(x.broken),
        );
    let all = external_ui::output_models(x.outputs@);
    assert(all[k] == x.outputs@[k]@);
    lemma_outputs(bytes@, names, opened, names.len(), k);
    external_ui::law_unpacked_inside(bytes@, names, opened, names.len(), k);
    let place = x.outputs@[k]@.place;
    assert forall|i: int| 0 <= i < place.len() implies plain_name(#[trigger] place[i]) by {
        assert(safe_path::is_name(place[i]));
    }
}

/// Whether all parts of a name can stand in a file's name on every system.
pub open spec fn portable(parts: Seq<Seq<char>>) -> bool {
    parts.len() > 0 && forall|i: int| 0 <= i < parts.len() ==> plain_part(#[trigger] parts[i])
}

proof fn lemma_portable(parts: Seq<Seq<char>>)
    requires
        portable(parts),
    ensures
        external_ui::plain_name(slashed(parts)),
        safe_path::components(slashed(parts)) == Some(parts),
{
    reveal_strlit(".");
    reveal_strlit("..");
    reveal_strlit("//");
    assert forall|i: int| 0 <= i < parts.len() implies plain_name(#[trigger] parts[i]) by {
        let p = parts[i];
        assert(plain_part(p));
        assert(!p.contains('/')) by {
            if p.contains('/') {
                let j = choose|j: int| 0 <= j < p.len() && p[j] == '/';
                assert(external_ui::is_plain(p[j]));
            }
        }
        assert(p.last() != '.');
    }
    assert(path_laws::parts_only(parts)) by {
        assert forall|i: int| 0 <= i < parts.len() implies !(#[trigger] parts[i]).contains('/')
            && parts[i].len() > 0 by {
            assert(plain_name(parts[i]));
        }
    }
    path_laws::lemma_split(parts);
    path_laws::lemma_worked_off_plain(parts, Seq::empty());
    assert(Seq::<Seq<char>>::empty() + parts =~= parts);
    let s = slashed(parts);
    assert(s[0] == parts[0][0]);
    assert(plain_part(parts[0]));
    assert(external_ui::is_plain(parts[0][0]));
    if text::has_prefix(s, "//"@) {
        assert(s.take(2)[0] == s[0]);
    }
    assert forall|i: int| 0 <= i < text::split_of(s, '/').len() implies external_ui::plain_piece(
        #[trigger] text::split_of(s, '/')[i],
    ) by {
        assert(plain_part(parts[i]));
    }
}

proof fn lemma_entry_unpacked(
    bytes: Seq<u8>,
    strip: Option<Seq<char>>,
    opened: Seq<Option<Seq<Seq<char>>>>,
    n: nat,
    i: int,
    place: Seq<Seq<char>>,
)
    requires
        0 <= i < n <= opened.len(),
        external_ui::unpacked(bytes, strip, opened, n).1 is None,
        external_ui::place_of(strip, opened[i]) == Some(place),
    ensures
        exists|k: int|
            0 <= k < external_ui::unpacked(bytes, strip, opened, n).0.len() && (
            #[trigger] external_ui::unpacked(bytes, strip, opened, n).0[k]).entry == i
                && external_ui::unpacked(bytes, strip, opened, n).0[k].place == place,
    decreases n,
{
    let before = external_ui::unpacked(bytes, strip, opened, (n - 1) as nat);
    let now = external_ui::unpacked(bytes, strip, opened, n);
    if i < n - 1 {
        lemma_entry_unpacked(bytes, strip, opened, (n - 1) as nat, i, place);
        let k = choose|k: int|
            0 <= k < before.0.len() && (#[trigger] before.0[k]).entry == i && before.0[k].place
                == place;
        assert(now.0[k] == before.0[k]);
    } else {
        assert(now.0[before.0.len() as int].entry == i);
    }
}

/// When an archive is unpacked without an error, each entry with a portable
/// name has an output: below the place that its name gives it, without the
/// directory that all names share.
pub proof fn law_entries_are_unpacked(
    bytes: &[u8],
    names: &Vec<String>,
    top: Option<String>,
    x: Extraction,
    i: int,
    parts: Seq<Seq<char>>,
)
    requires
        call_ensures(extract_zip, (bytes,), x),
        archive_names(bytes@) == Some(text::texts(names@)),
        call_ensures(common_top_level, (names,), top),
        x.error is None,
        0 <= i < names@.len(),
        names@[i]@ == slashed(parts),
        portable(parts),
        top matches Some(t) ==> parts.len() > 1 && parts[0] == t@,
    ensures
        exists|k: int|
            0 <= k < x.outputs@.len() && (#[trigger] x.outputs@[k])@.entry == i
                && x.outputs@[k]@.place == (if top is Some {
                parts.drop_first()
            } else {
                parts
            }),
{
    let list = text::texts(names@);
    let opened = choose|opened: Seq<Option<Seq<Seq<char>>>>| #[trigger]
        external_ui::may_open(list, opened) && external_ui::unpacked(
            bytes@,
            external_ui::shared_top(list),
            opened,
            list.len(),
        ) == (
            external_ui::output_models(x.outputs@),
            text::opt_text(x.error),
            external_ui::broken_place(x.broken),
        );
    lemma_portable(parts);
    assert(list[i] == names@[i]@);
    assert(external_ui::may_enclose(list[i], opened[i]));
    assert(opened[i] == Some(parts));
    let strip = external_ui::shared_top(list);
    let place = if top is Some {
        parts.drop_first()
    } else {
        parts
    };
    assert(text::opt_text(top) == strip);
    lemma_entry_unpacked(bytes@, strip, opened, list.len(), i, place);
    let all = external_ui::unpacked(bytes@, strip, opened, list.len()).0;
    let k = choose|k: int|
        0 <= k < all.len() && (#[trigger] all[k]).entry == i && all[k].place == place;
    assert(all[k] == x.outputs@[k]@);
}

proof fn lemma_no_fault(
    bytes: Seq<u8>,
    strip: Option<Seq<char>>,
    opened: Seq<Option<Seq<Seq<char>>>>,
    n: nat,
)
    requires
        n <= opened.len() <= usize::MAX,
        forall|i: usize| i < n ==> (#[trigger] entry_is_dir(bytes, i)) is Ok,
        forall|i: usize| i < n ==> (#[trigger] entry_content(bytes, i)) is Ok,
    ensures
        external_ui::unpacked(bytes, strip, opened, n).1 is None,
    decreases n,
{
    if n > 0 {
        lemma_no_fault(bytes, strip, opened, (n - 1) as nat);
        let at = (n - 1) as usize;
        assert(entry_is_dir(bytes, at) is Ok);
        assert(entry_content(bytes, at) is Ok);
    }
}

/// An archive whose entries can all be read is unpacked without an error, and
/// what is no archive is not unpacked.
pub proof fn law_readable_archive(bytes: &[u8], names: Seq<Seq<char>>, x: Extraction)
    requires
        call_ensures(extract_zip, (bytes,), x),
        names.len() <= usize::MAX,
        forall|i: usize| i < names.len() ==> (#[trigger] entry_is_dir(bytes@, i)) is Ok,
        forall|i: usize| i < names.len() ==> (#[trigger] entry_content(bytes@, i)) is Ok,
    ensures
        archive_names(bytes@) == Some(names) ==> x.error is None && x.broken is None,
        archive_names(bytes@) is None ==> x.error is Some && x.outputs@.len() == 0,
{
    if archive_names(bytes@) == Some(names) {
        let opened = choose|opened: Seq<Option<Seq<Seq<char>>>>| #[trigger]
            external_ui::may_open(names, opened) && external_ui::unpacked(
                bytes@,
                external_ui::shared_top(names),
                opened,
                names.len(),
            ) == (
                external_ui::output_models(x.outputs@),
                text::opt_text(x.error),
                external_ui::broken_place(x.broken),
            );
        lemma_no_fault(bytes@, external_ui::shared_top(names), opened, names.len());
        lemma_not_broken(bytes@, external_ui::shared_top(names), opened, names.len());
    }
}

proof fn lemma_not_broken(
    bytes: Seq<u8>,
    strip: Option<Seq<char>>,
    opened: Seq<Option<Seq<Seq<char>>>>,
    n: nat,
)
    requires
        n <= opened.len(),
        external_ui::unpacked(bytes, strip, opened, n).1 is None,
    ensures
        external_ui::unpacked(bytes, strip, opened, n).2 is None,
    decreases n,
{
    if n > 0 {
        lemma_not_broken(bytes, strip, opened, (n - 1) as nat);
    }
}

} // verus!
