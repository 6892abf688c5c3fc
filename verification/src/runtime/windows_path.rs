//! Paths as Windows writes them.
use crate::text;
use vstd::prelude::*;

verus! {

/// Whether a character separates the components of a path.
pub open spec fn is_separator(c: char) -> bool {
    c == '\\' || c == '/'
}

/// Whether a path begins with a drive.
pub open spec fn has_drive(p: Seq<char>) -> bool {
    p.len() >= 2 && p[1] == ':' && (('a' <= p[0] && p[0] <= 'z') || ('A' <= p[0] && p[0] <= 'Z'))
}

/// The next separator at or behind `from`, or the end.
pub open spec fn separator_at(p: Seq<char>, from: int) -> int
    decreases p.len() - from,
{
    if from < 0 || from >= p.len() || is_separator(p[from]) {
        from
    } else {
        separator_at(p, from + 1)
    }
}

/// Where the name of a share ends that a path begins with: two separators, a
/// server, a separator and a share.
pub open spec fn share_end(p: Seq<char>) -> Option<int> {
    if p.len() >= 2 && is_separator(p[0]) && is_separator(p[1]) {
        let server = separator_at(p, 2);
        if server == 2 || server >= p.len() {
            None
        } else {
            let end = separator_at(p, server + 1);
            if end == server + 1 {
                None
            } else {
                Some(end)
            }
        }
    } else {
        None
    }
}

/// The next backslash at or behind `from`, or the end.
pub open spec fn backslash_at(p: Seq<char>, from: int) -> int
    decreases p.len() - from,
{
    if from < 0 || from >= p.len() || p[from] == '\\' {
        from
    } else {
        backslash_at(p, from + 1)
    }
}

/// Whether a path begins with the mark of a verbatim one.
pub open spec fn is_verbatim(p: Seq<char>) -> bool {
    p.len() >= 4 && p[0] == '\\' && p[1] == '\\' && p[2] == '?' && p[3] == '\\'
}

/// Whether a verbatim path names a share.
pub open spec fn is_verbatim_share(p: Seq<char>) -> bool {
    p.len() >= 8 && p[4] == 'U' && p[5] == 'N' && p[6] == 'C' && is_separator(p[7])
}

/// Where the prefix of a verbatim path ends: behind a server and a share, a
/// drive, or a name.
pub open spec fn verbatim_end(p: Seq<char>) -> Option<int> {
    if !is_verbatim(p) {
        None
    } else if is_verbatim_share(p) {
        let server = backslash_at(p, 8);
        let end = backslash_at(p, server + 1);
        Some(
            if server >= p.len() || end == server + 1 {
                server
            } else {
                end
            },
        )
    } else if has_drive(p.skip(4)) && (p.len() == 6 || is_separator(p[6])) {
        Some(6)
    } else {
        Some(backslash_at(p, 4))
    }
}

/// Where the name of a device ends that a path begins with.
pub open spec fn device_end(p: Seq<char>) -> Option<int> {
    if p.len() >= 4 && is_separator(p[0]) && is_separator(p[1]) && p[2] == '.' && is_separator(
        p[3],
    ) {
        Some(separator_at(p, 4))
    } else {
        None
    }
}

/// Where the prefix ends that a path begins with two separators for.
pub open spec fn named_end(p: Seq<char>) -> Option<int> {
    if is_verbatim(p) {
        verbatim_end(p)
    } else if device_end(p) is Some {
        device_end(p)
    } else {
        share_end(p)
    }
}

/// How long the drive, the share or the other prefix is that a path begins
/// with.
pub open spec fn prefix_len(p: Seq<char>) -> int {
    if has_drive(p) {
        2
    } else {
        match named_end(p) {
            Some(end) => end,
            None => 0,
        }
    }
}

/// Whether a path means the same place whatever the current directory is.
pub open spec fn absolute(p: Seq<char>) -> bool {
    if has_drive(p) {
        p.len() > 2 && is_separator(p[2])
    } else {
        named_end(p) is Some
    }
}

/// A path with backslashes alone.
pub open spec fn backslashed(p: Seq<char>) -> Seq<char> {
    p.map_values(
        |c: char|
            if c == '/' {
                '\\'
            } else {
                c
            },
    )
}

/// The pieces that are not empty.
pub open spec fn named_pieces(pieces: Seq<Seq<char>>) -> Seq<Seq<char>>
    decreases pieces.len(),
{
    if pieces.len() == 0 {
        Seq::empty()
    } else {
        let before = named_pieces(pieces.drop_last());
        if pieces.last().len() > 0 {
            before.push(pieces.last())
        } else {
            before
        }
    }
}

/// Where steps lead from a place: a step to the same directory stays, one to
/// the parent takes back a named one.
pub open spec fn walked(steps: Seq<Seq<char>>, from: Seq<Seq<char>>) -> Seq<Seq<char>>
    decreases steps.len(),
{
    if steps.len() == 0 {
        from
    } else {
        let before = walked(steps.drop_last(), from);
        let step = steps.last();
        if step.len() == 0 || step == "."@ {
            before
        } else if step == ".."@ {
            if before.len() > 0 && before.last() != "."@ && before.last() != ".."@ {
                before.drop_last()
            } else {
                before
            }
        } else {
            before.push(step)
        }
    }
}

/// Components, each with a backslash in front.
pub open spec fn components_text(parts: Seq<Seq<char>>) -> Seq<char>
    decreases parts.len(),
{
    if parts.len() == 0 {
        Seq::empty()
    } else {
        components_text(parts.drop_last()) + seq!['\\'] + parts.last()
    }
}

/// A path beside a verbatim one, which takes `.` and `..` for names: they are
/// worked off first.
pub open spec fn verbatim_joined(base: Seq<char>, p: Seq<char>) -> Seq<char> {
    let end = verbatim_end(base)->0;
    let rest = base.skip(end);
    let rooted = p.len() > 0 && is_separator(p[0]);
    let from = if rooted {
        Seq::empty()
    } else {
        named_pieces(text::split_of(rest, '\\'))
    };
    let parts = walked(text::split_of(backslashed(p), '\\'), from);
    base.take(end) + if parts.len() == 0 && (rooted || (rest.len() > 0 && rest[0] == '\\')) {
        seq!['\\']
    } else {
        components_text(parts)
    }
}

/// A path beside another one.
pub open spec fn joined(base: Seq<char>, p: Seq<char>) -> Seq<char> {
    if prefix_len(p) > 0 {
        p
    } else if is_verbatim(base) && p.len() > 0 {
        verbatim_joined(base, p)
    } else if p.len() > 0 && is_separator(p[0]) {
        base.take(prefix_len(base)) + p
    } else if base.len() == 0 || is_separator(base.last()) || (has_drive(base) && base.len() == 2) {
        base + p
    } else {
        base + seq!['\\'] + p
    }
}

fn separator(c: char) -> (b: bool)
    ensures
        b == is_separator(c),
{
    c == '\\' || c == '/'
}

fn drive(chars: &Vec<char>) -> (b: bool)
    ensures
        b == has_drive(chars@),
{
    if chars.len() < 2 {
        return false;
    }
    let c = chars[0];
    chars[1] == ':' && (('a' <= c && c <= 'z') || ('A' <= c && c <= 'Z'))
}

fn find_separator(chars: &Vec<char>, from: usize) -> (at: usize)
    requires
        from <= chars@.len(),
    ensures
        at == separator_at(chars@, from as int),
        from <= at <= chars@.len(),
{
    let mut i: usize = from;
    while i < chars.len() && !separator(chars[i])
        invariant
            from <= i <= chars@.len(),
            separator_at(chars@, from as int) == separator_at(chars@, i as int),
        decreases chars@.len() - i,
    {
        i += 1;
    }
    i
}

fn share(chars: &Vec<char>) -> (end: Option<usize>)
    ensures
        match end {
            Some(e) => share_end(chars@) == Some(e as int) && 0 < e <= chars@.len(),
            None => share_end(chars@) is None,
        },
{
    if chars.len() < 2 || !separator(chars[0]) || !separator(chars[1]) {
        return None;
    }
    let server: usize = find_separator(chars, 2);
    if server == 2 || server >= chars.len() {
        return None;
    }
    let end: usize = find_separator(chars, server + 1);
    if end == server + 1 {
        None
    } else {
        Some(end)
    }
}

fn find_backslash(chars: &Vec<char>, from: usize) -> (at: usize)
    requires
        from <= chars@.len(),
    ensures
        at == backslash_at(chars@, from as int),
        from <= at <= chars@.len(),
{
    let mut i: usize = from;
    while i < chars.len() && chars[i] != '\\'
        invariant
            from <= i <= chars@.len(),
            backslash_at(chars@, from as int) == backslash_at(chars@, i as int),
        decreases chars@.len() - i,
    {
        i += 1;
    }
    i
}

fn verbatim(chars: &Vec<char>) -> (end: Option<usize>)
    ensures
        match end {
            Some(e) => verbatim_end(chars@) == Some(e as int) && 4 <= e <= chars@.len(),
            None => !is_verbatim(chars@),
        },
{
    if chars.len() < 4 || chars[0] != '\\' || chars[1] != '\\' || chars[2] != '?' || chars[3]
        != '\\' {
        return None;
    }
    if chars.len() >= 8 && chars[4] == 'U' && chars[5] == 'N' && chars[6] == 'C' && separator(
        chars[7],
    ) {
        let server: usize = find_backslash(chars, 8);
        if server >= chars.len() {
            return Some(server);
        }
        let end: usize = find_backslash(chars, server + 1);
        return Some(
            if end == server + 1 {
                server
            } else {
                end
            },
        );
    }
    if chars.len() >= 6 && chars[5] == ':' && (chars.len() == 6 || separator(chars[6])) {
        let c = chars[4];
        if ('a' <= c && c <= 'z') || ('A' <= c && c <= 'Z') {
            return Some(6);
        }
    }
    Some(find_backslash(chars, 4))
}

fn named(chars: &Vec<char>) -> (end: Option<usize>)
    ensures
        match end {
            Some(e) => named_end(chars@) == Some(e as int) && 0 < e <= chars@.len(),
            None => named_end(chars@) is None,
        },
{
    if let Some(e) = verbatim(chars) {
        return Some(e);
    }
    if chars.len() >= 4 && separator(chars[0]) && separator(chars[1]) && chars[2] == '.'
        && separator(chars[3]) {
        return Some(find_separator(chars, 4));
    }
    share(chars)
}

/// Whether a path means the same place whatever the current directory is.
pub fn is_absolute(p: &str) -> (b: bool)
    ensures
        b == absolute(p@),
{
    let chars = text::chars_of(p);
    if drive(&chars) {
        chars.len() > 2 && separator(chars[2])
    } else {
        named(&chars).is_some()
    }
}

/// The pieces of a path between its separators.
fn pieces(chars: &Vec<char>) -> (out: Vec<String>)
    ensures
        text::texts(out@) == text::split_of(backslashed(chars@), '\\'),
{
    let mut s = String::new();
    let mut i: usize = 0;
    while i < chars.len()
        invariant
            i <= chars@.len(),
            s@ == backslashed(chars@.take(i as int)),
        decreases chars@.len() - i,
    {
        let c = if chars[i] == '/' {
            '\\'
        } else {
            chars[i]
        };
        s.push(c);
        assert(s@ =~= backslashed(chars@.take(i + 1)));
        i += 1;
    }
    assert(chars@.take(i as int) =~= chars@);
    text::split(s.as_str(), '\\')
}

/// The components of what stands behind the prefix of a verbatim path.
fn verbatim_components(rest: &str) -> (out: Vec<String>)
    ensures
        text::texts(out@) == named_pieces(text::split_of(rest@, '\\')),
{
    let all = text::split(rest, '\\');
    let ghost model = text::texts(all@);
    let mut out: Vec<String> = Vec::new();
    let mut i: usize = 0;
    assert(model.take(0) =~= Seq::empty());
    assert(text::texts(out@) =~= Seq::empty());
    while i < all.len()
        invariant
            i <= all@.len(),
            model == text::texts(all@),
            text::texts(out@) == named_pieces(model.take(i as int)),
        decreases all@.len() - i,
    {
        let ghost before = text::texts(out@);
        assert(model.take(i + 1).drop_last() =~= model.take(i as int));
        assert(model[i as int] == all@[i as int]@);
        if !all[i].as_str().is_empty() {
            out.push(all[i].as_str().to_owned());
            assert(text::texts(out@) =~= before.push(model[i as int]));
        }
        i += 1;
    }
    assert(model.take(i as int) =~= model);
    out
}

/// Takes steps from a place.
fn walk(steps: &Vec<String>, from: Vec<String>) -> (out: Vec<String>)
    ensures
        text::texts(out@) == walked(text::texts(steps@), text::texts(from@)),
{
    let ghost model = text::texts(steps@);
    let ghost start = text::texts(from@);
    let mut out = from;
    let mut i: usize = 0;
    assert(model.take(0) =~= Seq::empty());
    while i < steps.len()
        invariant
            i <= steps@.len(),
            model == text::texts(steps@),
            text::texts(out@) == walked(model.take(i as int), start),
        decreases steps@.len() - i,
    {
        let ghost before = text::texts(out@);
        assert(model.take(i + 1).drop_last() =~= model.take(i as int));
        assert(model[i as int] == steps@[i as int]@);
        let step = steps[i].as_str();
        if step.is_empty() || text::same(step, ".") {
        } else if text::same(step, "..") {
            let n: usize = out.len();
            if n > 0 {
                assert(before.last() == out@[n - 1]@);
                if !text::same(out[n - 1].as_str(), ".") && !text::same(out[n - 1].as_str(), "..") {
                    let gone = out.pop();
                    assert(text::texts(out@) =~= before.drop_last());
                }
            }
        } else {
            out.push(step.to_owned());
            assert(text::texts(out@) =~= before.push(model[i as int]));
        }
        i += 1;
    }
    assert(model.take(i as int) =~= model);
    out
}

/// A path beside a verbatim one whose prefix ends at `end`.
fn join_verbatim(base: &Vec<char>, end: usize, p: &Vec<char>) -> (out: String)
    requires
        verbatim_end(base@) == Some(end as int),
        end <= base@.len(),
    ensures
        out@ == verbatim_joined(base@, p@),
{
    let rest = text::sub_text(base, end, base.len());
    assert(rest@ =~= base@.skip(end as int));
    let rooted = p.len() > 0 && separator(p[0]);
    let from = if rooted {
        Vec::new()
    } else {
        verbatim_components(rest.as_str())
    };
    let ghost start = text::texts(from@);
    assert(rooted ==> start =~= Seq::empty());
    let parts = walk(&pieces(p), from);
    let ghost model = text::texts(parts@);
    let mut out = text::sub_text(base, 0, end);
    let ghost front = base@.take(end as int);
    assert(out@ =~= front);
    if parts.len() == 0 && (rooted || (end < base.len() && base[end] == '\\')) {
        out.push('\\');
        assert(out@ =~= front + seq!['\\']);
        return out;
    }
    let mut i: usize = 0;
    assert(model.take(0) =~= Seq::empty());
    assert(front + components_text(model.take(0)) =~= front);
    while i < parts.len()
        invariant
            i <= parts@.len(),
            model == text::texts(parts@),
            out@ == front + components_text(model.take(i as int)),
        decreases parts@.len() - i,
    {
        let ghost before = out@;
        assert(model.take(i + 1).drop_last() =~= model.take(i as int));
        assert(model[i as int] == parts@[i as int]@);
        out.push('\\');
        text::push_text(&mut out, parts[i].as_str());
        assert(out@ =~= front + components_text(model.take(i + 1)));
        i += 1;
    }
    assert(model.take(i as int) =~= model);
    out
}

/// A path beside another one.
pub fn join(base: &str, p: &str) -> (out: String)
    ensures
        out@ == joined(base@, p@),
{
    let own = text::chars_of(p);
    if drive(&own) {
        return p.to_owned();
    }
    if let Some(end) = named(&own) {
        return p.to_owned();
    }
    let chars = text::chars_of(base);
    let n: usize = chars.len();
    if own.len() > 0 {
        if let Some(end) = verbatim(&chars) {
            return join_verbatim(&chars, end, &own);
        }
    }
    if own.len() > 0 && separator(own[0]) {
        let end: usize = if drive(&chars) {
            2
        } else {
            match named(&chars) {
                Some(e) => e,
                None => 0,
            }
        };
        let prefix = text::sub_text(&chars, 0, end);
        assert(prefix@ =~= base@.take(prefix_len(base@)));
        return text::join2(prefix.as_str(), p);
    }
    if n == 0 || separator(chars[n - 1]) || (drive(&chars) && n == 2) {
        text::join2(base, p)
    } else {
        let mut out = base.to_owned();
        out.push('\\');
        text::push_text(&mut out, p);
        assert(out@ =~= base@ + seq!['\\'] + p@);
        out
    }
}

/// A path without a drive, a share or a separator in front lies below the one
/// that it stands beside, unless that one is verbatim.
pub proof fn law_relative_stays_below(base: Seq<char>, p: Seq<char>)
    requires
        prefix_len(p) <= 0,
        p.len() > 0 ==> !is_separator(p[0]),
        !is_verbatim(base),
    ensures
        text::has_prefix(joined(base, p), base),
        joined(base, p).skip(joined(base, p).len() - p.len()) == p,
{
    let out = joined(base, p);
    assert(out.take(base.len() as int) =~= base);
    assert(out.skip(out.len() - p.len()) =~= p);
}

} // verus!
