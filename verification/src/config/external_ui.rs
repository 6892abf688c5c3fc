//! Unpacking the archive of a web dashboard.
use crate::config::safe_path;
use crate::octets;
use crate::text;
use vstd::prelude::*;

verus! {

/// The names of the entries of a zip archive, in its order; nothing where the
/// bytes are no archive.
pub uninterp spec fn archive_names(bytes: Seq<u8>) -> Option<Seq<Seq<char>>>;

/// Whether an entry of a zip archive is a directory, or why it cannot be
/// opened.
pub uninterp spec fn entry_is_dir(bytes: Seq<u8>, at: usize) -> Result<bool, Seq<char>>;

/// What an entry of a zip archive holds, or why it cannot be read.
pub uninterp spec fn entry_content(bytes: Seq<u8>, at: usize) -> Result<Seq<u8>, Seq<char>>;

/// `std::io::Cursor`, opaque here.
#[verifier::external_type_specification]
#[verifier::external_body]
#[verifier::reject_recursive_types(T)]
pub struct ExCursor<T>(std::io::Cursor<T>);

/// `zip::ZipArchive`, opaque here.
#[verifier::external_type_specification]
#[verifier::external_body]
#[verifier::reject_recursive_types(R)]
pub struct ExZipArchive<R>(zip::ZipArchive<R>);

/// An archive in memory.
pub type Archive = zip::ZipArchive<std::io::Cursor<Vec<u8>>>;

/// The bytes that an archive was opened on.
pub uninterp spec fn archived(archive: Archive) -> Seq<u8>;

/// `zip`'s `ZipArchive::new` and `file_names`; nothing where the bytes are no
/// archive or a name cannot be read. What an archive is is not stated here.
#[verifier::external_body]
fn open_archive(bytes: Vec<u8>) -> (opened: Option<(Archive, Vec<String>)>)
    ensures
        match opened {
            Some((archive, names)) => archived(archive) == bytes@ && archive_names(bytes@) == Some(
                text::texts(names@),
            ),
            None => archive_names(bytes@) is None,
        },
{
    let archive = zip::ZipArchive::new(std::io::Cursor::new(bytes)).ok()?;
    let names = archive.file_names().map(|n| n.ok().map(|n| n.into_owned())).collect::<Option<_>>()?;
    Some((archive, names))
}

/// Whether a character may stand in a file's name on every system.
pub open spec fn is_plain(c: char) -> bool {
    &&& ' ' <= c && c != '\u{7f}'
    &&& c != '<' && c != '>' && c != ':' && c != '"' && c != '/' && c != '\\' && c != '|' && c != '?'
        && c != '*'
}

/// How many UTF-16 units a text takes.
pub open spec fn utf16_len(s: Seq<char>) -> nat
    decreases s.len(),
{
    if s.len() == 0 {
        0
    } else {
        utf16_len(s.drop_last()) + if s.last() as int >= 0x1_0000 {
            2nat
        } else {
            1nat
        }
    }
}

/// Whether a part of a name means a device on some system, whatever its
/// extension.
pub open spec fn is_device(part: Seq<char>) -> bool {
    let stem = device_stem(part);
    ||| stem == "con"@ || stem == "prn"@ || stem == "aux"@ || stem == "nul"@
    ||| stem == "conin$"@ || stem == "conout$"@ || stem == "clock$"@
    ||| stem.len() == 4 && (stem.take(3) == "com"@ || stem.take(3) == "lpt"@) && is_port(stem[3])
}

/// Whether a character counts as the number of a port: by its lowest byte, or
/// as a small digit set high.
pub open spec fn is_port(c: char) -> bool {
    0x31 <= c as int % 256 <= 0x39 || c == '\u{b9}' || c == '\u{b2}' || c == '\u{b3}'
}

/// Whether a part of a name may be a file's name on every system.
pub open spec fn plain_part(part: Seq<char>) -> bool {
    &&& 0 < part.len() && utf16_len(part) <= 255
    &&& forall|i: int| 0 <= i < part.len() ==> is_plain(#[trigger] part[i])
    &&& part.last() != '.' && part.last() != ' '
    &&& !is_device(part)
}

/// Whether a piece of a name between slashes means the same on every system.
pub open spec fn plain_piece(piece: Seq<char>) -> bool {
    piece.len() == 0 || piece == "."@ || piece == ".."@ || plain_part(piece)
}

/// Whether a name means the same on every system: plain pieces between
/// slashes, not two of which stand in front.
pub open spec fn plain_name(name: Seq<char>) -> bool {
    let pieces = text::split_of(name, '/');
    &&& forall|i: int| 0 <= i < pieces.len() ==> plain_piece(#[trigger] pieces[i])
    &&& !text::has_prefix(name, "//"@)
}

/// A name with slashes for backslashes, and for colons where they are to part
/// names too.
pub open spec fn parted(name: Seq<char>, colons: bool) -> Seq<char> {
    name.map_values(
        |c: char|
            if c == '\\' || (colons && c == ':') {
                '/'
            } else {
                c
            },
    )
}

/// The pieces of a name between slashes and backslashes.
pub open spec fn pieces_of(name: Seq<char>) -> Seq<Seq<char>> {
    text::split_of(parted(name, false), '/')
}

/// Whether a piece of a name may begin with a drive.
pub open spec fn may_have_drive(piece: Seq<char>) -> bool {
    piece.len() >= 2 && piece[1] == ':'
}

/// Whether a name is made of pieces alone: none has a drive, and no two
/// separators in front speak of another machine.
pub open spec fn simple_name(name: Seq<char>) -> bool {
    &&& !text::has_prefix(parted(name, false), "//"@)
    &&& forall|i: int| 0 <= i < pieces_of(name).len() ==> !may_have_drive(
        #[trigger] pieces_of(name)[i],
    )
}

/// Whether these may be the parts of an entry's name on some system; `None`
/// stands for a name that is refused, as one is that does not stay inside or
/// holds a zero character. Systems differ on which names they refuse beyond
/// that, except for plain ones, and on names with drives and machines.
pub open spec fn may_enclose(name: Seq<char>, parts: Option<Seq<Seq<char>>>) -> bool {
    &&& parts matches Some(p) ==> safe_path::all_names(p)
    &&& plain_name(name) ==> parts == safe_path::components(name)
    &&& simple_name(name) ==> parts is None || parts == safe_path::components(parted(name, false))
    &&& name.contains('\0') ==> parts is None
    &&& pieces_of(name)[0] == ".."@ ==> parts is None
}

/// How many bytes a character takes in UTF-8.
pub open spec fn utf8_width(c: char) -> int {
    if (c as int) < 0x80 {
        1
    } else if (c as int) < 0x800 {
        2
    } else if (c as int) < 0x1_0000 {
        3
    } else {
        4
    }
}

/// Whether the byte behind the first `n` of a text in UTF-8 lies inside a
/// character.
pub open spec fn cut_inside(s: Seq<char>, n: int) -> bool
    decreases s.len(),
{
    if s.len() == 0 || n <= 0 {
        false
    } else {
        n < utf8_width(s[0]) || cut_inside(s.drop_first(), n - utf8_width(s[0]))
    }
}

/// Whether a piece of a name is not looked at closely on any system, or its
/// stem, up to its first dot, may be cut behind its third byte.
pub open spec fn safe_piece(piece: Seq<char>) -> bool {
    !plain_part(piece) || !cut_inside(text::split_of(piece, '.')[0], 3)
}

/// Whether no piece that is looked at closely has a stem whose third byte lies
/// inside a character. The first piece that is not plain ends the look at a
/// simple name.
pub open spec fn opens_safely(name: Seq<char>) -> bool {
    if simple_name(name) {
        forall|i: int|
            0 <= i < pieces_of(name).len() && (forall|j: int|
                0 <= j < i ==> plain_piece(#[trigger] pieces_of(name)[j])) ==> safe_piece(
                #[trigger] pieces_of(name)[i],
            )
    } else {
        forall|i: int|
            0 <= i < text::split_of(parted(name, true), '/').len() ==> safe_piece(
                #[trigger] text::split_of(parted(name, true), '/')[i],
            )
    }
}

/// `zip`'s `ZipArchive::by_index` with `is_dir`.
#[verifier::external_body]
fn open_entry(archive: &mut Archive, at: usize) -> (r: Result<bool, String>)
    ensures
        archived(*final(archive)) == archived(*old(archive)),
        match r {
            Ok(dir) => entry_is_dir(archived(*old(archive)), at) == Ok::<bool, Seq<char>>(dir),
            Err(e) => entry_is_dir(archived(*old(archive)), at) == Err::<bool, Seq<char>>(e@),
        },
{
    Ok(archive.by_index(at).map_err(|e| e.to_string())?.is_dir())
}

/// `zip`'s `ZipArchive::by_index` with `enclosed_name`. The name of the entry is
/// that at its place among `file_names`. On Windows the call refuses the first
/// part that is not plain; it compares the stem of a plain one with the names of
/// devices by cutting it behind the third byte, and panics where that lies inside
/// a character. A name is cut at slashes and backslashes, with `.` and `..` worked
/// off and a separator in front passed over; one that begins with the parent
/// directory, leaves the start by it, or holds a zero character is refused. Other
/// systems take what is not plain: a control character, one of `< > : " | ? *`, a
/// dot or a space at the end of a part, the name of a device, or a part of more
/// than 255 UTF-16 units. Of names with a drive or two separators in front nothing
/// is stated here beyond that what is handed out stays inside.
#[verifier::external_body]
fn enclosed_entry(archive: &mut Archive, at: usize) -> (r: Result<Option<Vec<String>>, String>)
    requires
        archive_names(archived(*old(archive))) matches Some(names) && at < names.len()
            && opens_safely(names[at as int]),
    ensures
        archived(*final(archive)) == archived(*old(archive)),
        match r {
            Ok(enclosed) => may_enclose(
                (archive_names(archived(*old(archive)))->0)[at as int],
                enclosed_parts(enclosed),
            ),
            Err(e) => entry_is_dir(archived(*old(archive)), at) == Err::<bool, Seq<char>>(e@),
        },
{
    let entry = archive.by_index(at).map_err(|e| e.to_string())?;
    Ok(entry.enclosed_name().map(|p| {
        p.iter().map(|c| c.to_string_lossy().into_owned()).collect()
    }))
}

/// `zip`'s `ZipArchive::by_index`, read to its end. Beside the error stands
/// what was read before it; how much that is depends on how memory was handed
/// out, and is not stated here.
#[verifier::external_body]
fn read_entry(archive: &mut Archive, at: usize) -> (r: (Vec<u8>, Option<String>))
    ensures
        archived(*final(archive)) == archived(*old(archive)),
        match r.1 {
            None => entry_content(archived(*old(archive)), at) == Ok::<Seq<u8>, Seq<char>>(r.0@),
            Some(e) => entry_content(archived(*old(archive)), at) == Err::<Seq<u8>, Seq<char>>(e@),
        },
{
    let mut out = Vec::new();
    let mut entry = match archive.by_index(at) {
        Ok(f) => f,
        Err(e) => return (out, Some(e.to_string())),
    };
    let error = std::io::Read::read_to_end(&mut entry, &mut out).err();
    (out, error.map(|e| e.to_string()))
}

fn width(c: char) -> (w: usize)
    ensures
        w == utf8_width(c),
        1 <= w <= 4,
{
    let n: u32 = c as u32;
    if n < 0x80 {
        1
    } else if n < 0x800 {
        2
    } else if n < 0x1_0000 {
        3
    } else {
        4
    }
}

fn may_cut_stem(piece: &str) -> (b: bool)
    ensures
        b == !cut_inside(text::split_of(piece@, '.')[0], 3),
{
    let parts = text::split(piece, '.');
    proof {
        assert(text::split_of(piece@, '.').len() > 0);
        assert(text::texts(parts@)[0] == parts@[0]@);
    }
    let stem = text::chars_of(parts[0].as_str());
    let mut left: usize = 3;
    let mut i: usize = 0;
    assert(stem@.skip(0) =~= stem@);
    while i < stem.len() && left > 0
        invariant
            i <= stem@.len(),
            left <= 3,
            stem@ == text::split_of(piece@, '.')[0],
            cut_inside(stem@, 3) == cut_inside(stem@.skip(i as int), left as int),
        decreases stem@.len() - i,
    {
        let w: usize = width(stem[i]);
        assert(stem@.skip(i as int).drop_first() =~= stem@.skip(i + 1));
        if left < w {
            return false;
        }
        left = left - w;
        i += 1;
    }
    true
}

fn is_safe_piece(piece: &str) -> (b: bool)
    ensures
        b == safe_piece(piece@),
{
    !is_plain_part(piece) || may_cut_stem(piece)
}

fn part_name(name: &str, colons: bool) -> (s: String)
    ensures
        s@ == parted(name@, colons),
{
    let chars = text::chars_of(name);
    let mut s = String::new();
    let mut i: usize = 0;
    while i < chars.len()
        invariant
            i <= chars@.len(),
            s@ == parted(chars@.take(i as int), colons),
        decreases chars@.len() - i,
    {
        let c = if chars[i] == '\\' || (colons && chars[i] == ':') {
            '/'
        } else {
            chars[i]
        };
        s.push(c);
        assert(s@ =~= parted(chars@.take(i + 1), colons));
        i += 1;
    }
    assert(chars@.take(i as int) =~= chars@);
    s
}

fn is_simple_name(name: &str) -> (b: bool)
    ensures
        b == simple_name(name@),
{
    let s = part_name(name, false);
    if text::starts_with(s.as_str(), "//") {
        return false;
    }
    let pieces = text::split(s.as_str(), '/');
    let ghost all = text::texts(pieces@);
    let mut k: usize = 0;
    while k < pieces.len()
        invariant
            k <= pieces@.len(),
            all == text::texts(pieces@),
            all == pieces_of(name@),
            forall|j: int| 0 <= j < k ==> !may_have_drive(#[trigger] all[j]),
        decreases pieces@.len() - k,
    {
        assert(all[k as int] == pieces@[k as int]@);
        let chars = text::chars_of(pieces[k].as_str());
        if chars.len() >= 2 && chars[1] == ':' {
            assert(may_have_drive(pieces_of(name@)[k as int]));
            return false;
        }
        k += 1;
    }
    true
}

fn is_safe_name(name: &str) -> (b: bool)
    ensures
        b == opens_safely(name@),
{
    let simple = is_simple_name(name);
    let s = part_name(name, !simple);
    let pieces = text::split(s.as_str(), '/');
    let ghost all = text::texts(pieces@);
    let mut k: usize = 0;
    while k < pieces.len()
        invariant
            k <= pieces@.len(),
            simple == simple_name(name@),
            all == text::texts(pieces@),
            all == text::split_of(parted(name@, !simple), '/'),
            forall|j: int|
                0 <= j < k ==> safe_piece(#[trigger] all[j]) && (simple ==> plain_piece(all[j])),
        decreases pieces@.len() - k,
    {
        assert(all[k as int] == pieces@[k as int]@);
        let p = pieces[k].as_str();
        if !is_safe_piece(p) {
            if simple {
                assert(!safe_piece(pieces_of(name@)[k as int]));
            }
            return false;
        }
        if simple && !is_plain_piece(p) {
            assert forall|i: int|
                0 <= i < pieces_of(name@).len() && (forall|j: int|
                    0 <= j < i ==> plain_piece(
                        #[trigger] pieces_of(name@)[j],
                    )) implies safe_piece(#[trigger] pieces_of(name@)[i]) by {
                if i > k {
                    assert(!plain_piece(pieces_of(name@)[k as int]));
                }
            }
            return true;
        }
        k += 1;
    }
    true
}

fn plain_char(c: char) -> (b: bool)
    ensures
        b == is_plain(c),
{
    c >= ' ' && c != '\u{7f}' && c != '<' && c != '>' && c != ':' && c != '"' && c != '/' && c
        != '\\' && c != '|' && c != '?' && c != '*'
}

/// What of a part may name a device: its stem in lower case, without the spaces
/// at its end.
pub open spec fn device_stem(part: Seq<char>) -> Seq<char> {
    text::ascii_lower(text::trim_char_end_of(text::split_of(part, '.')[0], ' '))
}

fn find_device_stem(part: &str) -> (stem: String)
    ensures
        stem@ == device_stem(part@),
{
    let parts = text::split(part, '.');
    proof {
        assert(text::split_of(part@, '.').len() > 0);
        assert(text::texts(parts@)[0] == parts@[0]@);
    }
    let raw = text::chars_of(parts[0].as_str());
    let mut n: usize = raw.len();
    assert(raw@.take(n as int) =~= raw@);
    while n > 0 && raw[n - 1] == ' '
        invariant
            n <= raw@.len(),
            text::trim_char_end_of(raw@, ' ') == text::trim_char_end_of(raw@.take(n as int), ' '),
        decreases n,
    {
        assert(raw@.take(n as int).drop_last() =~= raw@.take(n - 1));
        n -= 1;
    }
    let trimmed = text::sub_text(&raw, 0, n);
    assert(trimmed@ =~= raw@.take(n as int));
    text::to_ascii_lowercase(trimmed.as_str())
}

fn is_device_part(part: &str) -> (b: bool)
    ensures
        b == is_device(part@),
{
    let stem = find_device_stem(part);
    let s = stem.as_str();
    if text::same(s, "con") || text::same(s, "prn") || text::same(s, "aux") || text::same(s, "nul")
        || text::same(s, "conin$") || text::same(s, "conout$") || text::same(s, "clock$") {
        return true;
    }
    let chars = text::chars_of(s);
    if chars.len() != 4 {
        return false;
    }
    let front = text::sub_text(&chars, 0, 3);
    assert(front@ =~= stem@.take(3));
    if !text::same(front.as_str(), "com") && !text::same(front.as_str(), "lpt") {
        return false;
    }
    let low: u32 = chars[3] as u32 % 256;
    (0x31 <= low && low <= 0x39) || chars[3] == '\u{b9}' || chars[3] == '\u{b2}' || chars[3]
        == '\u{b3}'
}

fn is_plain_part(part: &str) -> (b: bool)
    ensures
        b == plain_part(part@),
{
    let chars = text::chars_of(part);
    let n: usize = chars.len();
    if n == 0 {
        return false;
    }
    let mut units: usize = 0;
    let mut i: usize = 0;
    assert(part@.take(0) =~= Seq::empty());
    while i < n
        invariant
            n == chars@.len(),
            chars@ == part@,
            i <= n,
            units == utf16_len(part@.take(i as int)),
            units <= 255,
            forall|j: int| 0 <= j < i ==> is_plain(#[trigger] part@[j]),
        decreases n - i,
    {
        assert(part@.take(i + 1).drop_last() =~= part@.take(i as int));
        assert(part@.take(i + 1).last() == chars@[i as int]);
        if !plain_char(chars[i]) {
            return false;
        }
        let more: usize = if width(chars[i]) == 4 {
            2
        } else {
            1
        };
        if units + more > 255 {
            proof {
                lemma_utf16_grows(part@, i + 1);
            }
            return false;
        }
        units = units + more;
        i += 1;
    }
    assert(part@.take(n as int) =~= part@);
    chars[n - 1] != '.' && chars[n - 1] != ' ' && !is_device_part(part)
}

proof fn lemma_utf16_grows(s: Seq<char>, n: int)
    requires
        0 <= n <= s.len(),
    ensures
        utf16_len(s.take(n)) <= utf16_len(s),
    decreases s.len(),
{
    if n < s.len() {
        lemma_utf16_grows(s.drop_last(), n);
        assert(s.drop_last().take(n) =~= s.take(n));
    } else {
        assert(s.take(n) =~= s);
    }
}

fn is_plain_piece(piece: &str) -> (b: bool)
    ensures
        b == plain_piece(piece@),
{
    piece.is_empty() || text::same(piece, ".") || text::same(piece, "..") || is_plain_part(piece)
}

/// The parts of a name that is not handed to the archive's own call: those of a
/// simple one, nothing for another.
pub open spec fn parts_by_hand(name: Seq<char>) -> Option<Seq<Seq<char>>> {
    if simple_name(name) && !name.contains('\0') {
        safe_path::components(parted(name, false))
    } else {
        None
    }
}

fn parts_of_name(name: &str) -> (parts: Option<Vec<String>>)
    ensures
        enclosed_parts(parts) == parts_by_hand(name@),
{
    if is_simple_name(name) && !text::contains_char(name, '\0') {
        safe_path::split_components(part_name(name, false).as_str())
    } else {
        None
    }
}

/// Every character of a text but the separator stands in one of its pieces.
proof fn lemma_pieces_cover(s: Seq<char>, c: char, k: int)
    requires
        0 <= k < s.len(),
        s[k] != c,
    ensures
        exists|i: int| 0 <= i < text::split_of(s, c).len() && (#[trigger] text::split_of(
            s,
            c,
        )[i]).contains(s[k]),
    decreases s.len(),
{
    text::lemma_first_of(s, c);
    let n = text::first_of(s, c);
    let pieces = text::split_of(s, c);
    if 0 <= n < s.len() {
        let rest = s.skip(n + 1);
        if k < n {
            assert(s.take(n)[k] == s[k]);
            assert(pieces[0].contains(s[k]));
        } else {
            lemma_pieces_cover(rest, c, k - n - 1);
            let i = choose|i: int|
                0 <= i < text::split_of(rest, c).len() && (#[trigger] text::split_of(
                    rest,
                    c,
                )[i]).contains(s[k]);
            assert(pieces[i + 1] == text::split_of(rest, c)[i]);
        }
    } else {
        assert(pieces[0].contains(s[k]));
    }
}

/// Plain names are simple.
proof fn lemma_plain_is_simple(name: Seq<char>)
    requires
        plain_name(name),
    ensures
        simple_name(name),
        parted(name, false) == name,
        !name.contains('\0'),
{
    reveal_strlit(".");
    reveal_strlit("..");
    let pieces = text::split_of(name, '/');
    assert forall|k: int| 0 <= k < name.len() implies name[k] != '\\' && name[k] != ':' && name[k]
        != '\0' by {
        if name[k] != '/' {
            lemma_pieces_cover(name, '/', k);
            let i = choose|i: int|
                0 <= i < pieces.len() && (#[trigger] pieces[i]).contains(name[k]);
            assert(plain_piece(pieces[i]));
            let j = choose|j: int| 0 <= j < pieces[i].len() && pieces[i][j] == name[k];
            assert(pieces[i][j] == '.' || is_plain(pieces[i][j]));
        }
    }
    assert(parted(name, false) =~= name);
    assert forall|i: int| 0 <= i < pieces.len() implies !may_have_drive(#[trigger] pieces[i]) by {
        assert(plain_piece(pieces[i]));
        if pieces[i].len() >= 2 {
            assert(pieces[i][1] == '.' || is_plain(pieces[i][1]));
        }
    }
}

/// What is taken of a name by hand may be what the archive's own call takes.
proof fn lemma_parts_by_hand(name: Seq<char>)
    ensures
        may_enclose(name, parts_by_hand(name)),
{
    reveal_strlit(".");
    reveal_strlit("..");
    if plain_name(name) {
        lemma_plain_is_simple(name);
    }
    safe_path::lemma_components_are_names(parted(name, false));
    assert(pieces_of(name).len() > 0);
}

/// Whether a name lies under a top directory, or is the directory's own with
/// its slash.
pub open spec fn is_under(name: Seq<char>, top: Seq<char>) -> bool {
    text::has_prefix(name, top + "/"@)
}

/// The directory that all entries share, where there is one: all lie under it
/// or are it, and one at least lies under it.
pub open spec fn shared_top(names: Seq<Seq<char>>) -> Option<Seq<char>> {
    if names.len() == 0 {
        None
    } else {
        let top = text::split_of(names[0], '/')[0];
        if top.len() > 0 && (exists|i: int|
            0 <= i < names.len() && is_under(#[trigger] names[i], top)) && forall|i: int|
            0 <= i < names.len() ==> #[trigger] names[i] == top || is_under(names[i], top) {
            Some(top)
        } else {
            None
        }
    }
}

/// The directory that all entries share, where there is one.
pub fn common_top_level(names: &Vec<String>) -> (out: Option<String>)
    ensures
        text::opt_text(out) == shared_top(text::texts(names@)),
{
    let ghost all = text::texts(names@);
    if names.len() == 0 {
        return None;
    }
    assert(all[0] == names@[0]@);
    let parts = text::split(names[0].as_str(), '/');
    proof {
        assert(text::split_of(names@[0]@, '/').len() > 0);
        assert(text::texts(parts@).len() == parts@.len());
        assert(text::texts(parts@)[0] == parts@[0]@);
    }
    let top = parts[0].as_str();
    if top.is_empty() {
        return None;
    }
    let prefix = text::join2(top, "/");
    let mut below = false;
    let mut i: usize = 0;
    while i < names.len()
        invariant
            i <= names@.len(),
            below == exists|j: int| 0 <= j < i && is_under(#[trigger] all[j], top@),
            all == text::texts(names@),
            prefix@ == top@ + "/"@,
            top@ == text::split_of(all[0], '/')[0],
            forall|j: int| 0 <= j < i ==> #[trigger] all[j] == top@ || is_under(all[j], top@),
        decreases names@.len() - i,
    {
        assert(all[i as int] == names@[i as int]@);
        if text::starts_with(names[i].as_str(), prefix.as_str()) {
            below = true;
            assert(is_under(all[i as int], top@));
        } else if !text::same(names[i].as_str(), top) {
            assert(!is_under(all[i as int], top@));
            return None;
        }
        i += 1;
    }
    if below {
        Some(top.to_owned())
    } else {
        None
    }
}

/// The model of the components of a name that is enclosed.
pub open spec fn enclosed_parts(enclosed: Option<Vec<String>>) -> Option<Seq<Seq<char>>> {
    match enclosed {
        Some(v) => Some(text::texts(v@)),
        None => None,
    }
}

/// Where an entry goes: the shared directory is taken off. Nothing where the
/// name is not enclosed, does not begin with that directory, or is only that.
pub open spec fn place_of(strip: Option<Seq<char>>, enclosed: Option<Seq<Seq<char>>>) -> Option<
    Seq<Seq<char>>,
> {
    match enclosed {
        None => None,
        Some(parts) => match strip {
            None => Some(parts),
            Some(top) => if parts.len() > 1 && parts[0] == top {
                Some(parts.drop_first())
            } else {
                None
            },
        },
    }
}

/// Where an entry goes.
pub fn place_entry(strip: &Option<String>, enclosed: Option<Vec<String>>) -> (out: Option<
    Vec<String>,
>)
    ensures
        enclosed_parts(out) == place_of(text::opt_text(*strip), enclosed_parts(enclosed)),
{
    match enclosed {
        None => None,
        Some(mut parts) => match strip {
            None => Some(parts),
            Some(top) => {
                let ghost all = text::texts(parts@);
                if parts.len() > 1 {
                    assert(all[0] == parts@[0]@);
                    if text::same(parts[0].as_str(), top.as_str()) {
                        let gone = parts.remove(0);
                        assert(text::texts(parts@) =~= all.drop_first());
                        return Some(parts);
                    }
                }
                None
            },
        },
    }
}

/// One entry to write.
#[derive(Debug)]
pub struct Output {
    /// Which entry of the archive it is.
    pub entry: usize,
    /// Where it goes, below the target directory.
    pub place: Vec<String>,
    /// What it holds; nothing for a directory.
    pub content: Option<Vec<u8>>,
}

/// What an archive comes to: the entries to write, in order, and the error
/// that ended it early.
#[derive(Debug)]
pub struct Extraction {
    pub outputs: Vec<Output>,
    /// The file whose entry broke off while it was read, with what was read
    /// of it.
    pub broken: Option<Output>,
    pub error: Option<String>,
}

/// The model of an [`Output`].
#[verifier::ext_equal]
pub struct OutputModel {
    pub entry: int,
    pub place: Seq<Seq<char>>,
    pub content: Option<Seq<u8>>,
}

impl View for Output {
    type V = OutputModel;

    open spec fn view(&self) -> OutputModel {
        OutputModel {
            entry: self.entry as int,
            place: text::texts(self.place@),
            content: match self.content {
                Some(c) => Some(c@),
                None => None,
            },
        }
    }
}

/// The models of some outputs.
pub open spec fn output_models(outputs: Seq<Output>) -> Seq<OutputModel> {
    outputs.map_values(|o: Output| o@)
}

/// Which entry broke off, and where its file goes.
pub open spec fn broken_place(broken: Option<Output>) -> Option<(int, Seq<Seq<char>>)> {
    match broken {
        Some(o) => Some((o@.entry, o@.place)),
        None => None,
    }
}

/// What the first `n` entries of an archive come to, given the parts of their
/// names: the entries to write, the error that ended it early, and the file
/// that then broke off. An entry without a place is left out unread.
pub open spec fn unpacked(
    bytes: Seq<u8>,
    strip: Option<Seq<char>>,
    opened: Seq<Option<Seq<Seq<char>>>>,
    n: nat,
) -> (Seq<OutputModel>, Option<Seq<char>>, Option<(int, Seq<Seq<char>>)>)
    decreases n,
{
    if n == 0 {
        (Seq::empty(), None, None)
    } else {
        let before = unpacked(bytes, strip, opened, (n - 1) as nat);
        let at = (n - 1) as usize;
        if before.1 is Some {
            before
        } else {
            match (entry_is_dir(bytes, at), place_of(strip, opened[n - 1])) {
                (Err(e), _) => (before.0, Some(e), None),
                (Ok(_), None) => before,
                (Ok(true), Some(place)) => (
                    before.0.push(OutputModel { entry: n - 1, place, content: None }),
                    None,
                    None,
                ),
                (Ok(false), Some(place)) => match entry_content(bytes, at) {
                    Err(e) => (before.0, Some(e), Some((n - 1, place))),
                    Ok(c) => (
                        before.0.push(OutputModel { entry: n - 1, place, content: Some(c) }),
                        None,
                        None,
                    ),
                },
            }
        }
    }
}

/// Whether these may be the parts of the names of an archive.
pub open spec fn may_open(names: Seq<Seq<char>>, opened: Seq<Option<Seq<Seq<char>>>>) -> bool {
    &&& opened.len() == names.len()
    &&& forall|i: int| 0 <= i < names.len() ==> may_enclose(names[i], #[trigger] opened[i])
}

proof fn lemma_unpacked_same(
    bytes: Seq<u8>,
    strip: Option<Seq<char>>,
    a: Seq<Option<Seq<Seq<char>>>>,
    b: Seq<Option<Seq<Seq<char>>>>,
    n: nat,
)
    requires
        n <= a.len(),
        n <= b.len(),
        forall|i: int| 0 <= i < n ==> a[i] == b[i],
    ensures
        unpacked(bytes, strip, a, n) == unpacked(bytes, strip, b, n),
    decreases n,
{
    if n > 0 {
        lemma_unpacked_same(bytes, strip, a, b, (n - 1) as nat);
    }
}

proof fn lemma_unpacked_stays(
    bytes: Seq<u8>,
    strip: Option<Seq<char>>,
    opened: Seq<Option<Seq<Seq<char>>>>,
    n: nat,
    m: nat,
)
    requires
        n <= m,
        unpacked(bytes, strip, opened, n).1 is Some,
    ensures
        unpacked(bytes, strip, opened, m) == unpacked(bytes, strip, opened, n),
    decreases m,
{
    if n < m {
        lemma_unpacked_stays(bytes, strip, opened, n, (m - 1) as nat);
    }
}

/// What comes of the entries that were opened, with some parts for the names
/// behind them.
proof fn lemma_opened(
    bytes: Seq<u8>,
    names: Seq<Seq<char>>,
    strip: Option<Seq<char>>,
    opened: Seq<Option<Seq<Seq<char>>>>,
) -> (all: Seq<Option<Seq<Seq<char>>>>)
    requires
        opened.len() <= names.len(),
        forall|i: int| 0 <= i < opened.len() ==> may_enclose(names[i], #[trigger] opened[i]),
        opened.len() == names.len() || unpacked(bytes, strip, opened, opened.len()).1 is Some,
    ensures
        may_open(names, all),
        unpacked(bytes, strip, all, names.len()) == unpacked(bytes, strip, opened, opened.len()),
{
    let all = Seq::new(
        names.len(),
        |i: int|
            if i < opened.len() {
                opened[i]
            } else {
                parts_by_hand(names[i])
            },
    );
    assert forall|i: int| 0 <= i < names.len() implies may_enclose(names[i], #[trigger] all[i]) by {
        lemma_parts_by_hand(names[i]);
    }
    lemma_unpacked_same(bytes, strip, all, opened, opened.len());
    if opened.len() < names.len() {
        lemma_unpacked_stays(bytes, strip, all, opened.len(), names.len());
    }
    all
}

/// Whether an extraction is what an archive with these names comes to on some
/// system.
pub open spec fn is_extraction(x: Extraction, bytes: Seq<u8>, names: Seq<Seq<char>>) -> bool {
    exists|opened: Seq<Option<Seq<Seq<char>>>>| #[trigger]
        may_open(names, opened) && unpacked(bytes, shared_top(names), opened, names.len()) == (
            output_models(x.outputs@),
            text::opt_text(x.error),
            broken_place(x.broken),
        )
}

/// Unpacks an archive. An entry whose name is not enclosed is left out, and so
/// is one outside the directory that all others share. The first entry that
/// cannot be read ends it, with the entries before it still to be written, and
/// its own file as far as it could be read.
pub fn extract_zip(bytes: &[u8]) -> (x: Extraction)
    ensures
        match archive_names(bytes@) {
            None => x.outputs@.len() == 0 && x.broken is None && (x.error matches Some(e) && e@
                == "not a valid zip archive"@),
            Some(names) => is_extraction(x, bytes@, names),
        },
{
    let (mut archive, names) = match open_archive(octets::copy(bytes)) {
        None => {
            return Extraction {
                outputs: Vec::new(),
                broken: None,
                error: Some("not a valid zip archive".to_owned()),
            };
        },
        Some(opened) => opened,
    };
    let ghost all = text::texts(names@);
    let strip = common_top_level(&names);
    let ghost top = text::opt_text(strip);
    let ghost mut opened: Seq<Option<Seq<Seq<char>>>> = Seq::empty();
    let mut outputs: Vec<Output> = Vec::new();
    assert(output_models(outputs@) =~= Seq::empty());
    let mut i: usize = 0;
    while i < names.len()
        invariant
            i <= names@.len(),
            all == text::texts(names@),
            archived(archive) == bytes@,
            archive_names(bytes@) == Some(all),
            top == text::opt_text(strip),
            top == shared_top(all),
            opened.len() == i,
            forall|j: int| 0 <= j < i ==> may_enclose(all[j], #[trigger] opened[j]),
            unpacked(bytes@, top, opened, i as nat) == (
                output_models(outputs@),
                None::<Seq<char>>,
                None::<(int, Seq<Seq<char>>)>,
            ),
        decreases names@.len() - i,
    {
        let ghost before = outputs@;
        let ghost known = opened;
        assert(all[i as int] == names@[i as int]@);
        let dir = match open_entry(&mut archive, i) {
            Err(e) => {
                proof {
                    lemma_parts_by_hand(all[i as int]);
                    opened = known.push(parts_by_hand(all[i as int]));
                    lemma_unpacked_same(bytes@, top, known, opened, i as nat);
                    let whole = lemma_opened(bytes@, all, top, opened);
                }
                return Extraction { outputs, broken: None, error: Some(e) };
            },
            Ok(d) => d,
        };
        proof {
            lemma_parts_by_hand(all[i as int]);
        }
        let enclosed = if is_safe_name(names[i].as_str()) {
            match enclosed_entry(&mut archive, i) {
                Ok(parts) => parts,
                Err(_) => parts_of_name(names[i].as_str()),
            }
        } else {
            parts_of_name(names[i].as_str())
        };
        let ghost parts = enclosed_parts(enclosed);
        proof {
            opened = known.push(parts);
            lemma_unpacked_same(bytes@, top, known, opened, i as nat);
        }
        if let Some(place) = place_entry(&strip, enclosed) {
            let ghost at = text::texts(place@);
            assert(place_of(top, parts) == Some(at));
            let content = if dir {
                None
            } else {
                let (read, error) = read_entry(&mut archive, i);
                if let Some(e) = error {
                    proof {
                        let whole = lemma_opened(bytes@, all, top, opened);
                    }
                    let broken = Output { entry: i, place, content: Some(read) };
                    return Extraction { outputs, broken: Some(broken), error: Some(e) };
                }
                Some(read)
            };
            outputs.push(Output { entry: i, place, content });
            assert(output_models(outputs@) =~= output_models(before).push(
                outputs@[before.len() as int]@,
            ));
        }
        i += 1;
    }
    proof {
        let whole = lemma_opened(bytes@, all, top, opened);
    }
    Extraction { outputs, broken: None, error: None }
}

/// Nothing is written outside the target directory: every place is made of
/// plain steps downwards.
pub proof fn law_unpacked_inside(
    bytes: Seq<u8>,
    names: Seq<Seq<char>>,
    opened: Seq<Option<Seq<Seq<char>>>>,
    n: nat,
    k: int,
)
    requires
        may_open(names, opened),
        n <= names.len(),
        0 <= k < unpacked(bytes, shared_top(names), opened, n).0.len(),
    ensures
        safe_path::all_names(unpacked(bytes, shared_top(names), opened, n).0[k].place),
    decreases n,
{
    let strip = shared_top(names);
    let before = unpacked(bytes, strip, opened, (n - 1) as nat).0;
    if k < before.len() {
        law_unpacked_inside(bytes, names, opened, (n - 1) as nat, k);
    } else {
        assert(may_enclose(names[n - 1], opened[n - 1]));
        let parts = opened[n - 1]->0;
        let place = place_of(strip, opened[n - 1])->0;
        assert forall|j: int| 0 <= j < place.len() implies safe_path::is_name(
            #[trigger] place[j],
        ) by {
            if strip is Some {
                assert(place[j] == parts[j + 1]);
            }
        }
    }
}

/// An archive of plain names comes to the same on every system.
pub proof fn law_plain_archive(
    bytes: Seq<u8>,
    names: Seq<Seq<char>>,
    here: Seq<Option<Seq<Seq<char>>>>,
    there: Seq<Option<Seq<Seq<char>>>>,
)
    requires
        may_open(names, here),
        may_open(names, there),
        forall|i: int| 0 <= i < names.len() ==> plain_name(#[trigger] names[i]),
    ensures
        unpacked(bytes, shared_top(names), here, names.len()) == unpacked(
            bytes,
            shared_top(names),
            there,
            names.len(),
        ),
{
    assert forall|i: int| 0 <= i < names.len() implies here[i] == there[i] by {
        assert(may_enclose(names[i], here[i]));
        assert(may_enclose(names[i], there[i]));
    }
    lemma_unpacked_same(bytes, shared_top(names), here, there, names.len());
}

} // verus!
