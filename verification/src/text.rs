//! Text: the parts of string handling the supervisor needs, on sequences of characters.

use vstd::prelude::*;
use vstd::string::*;
use vstd::utf8::*;

verus! {

/// `String::push` adds one character at the end.
pub assume_specification[ String::push ](text: &mut String, c: char)
    ensures
        final(text)@ == old(text)@.push(c),
;

/// The characters of `text`, in order.
pub fn to_chars(text: &str) -> (chars: Vec<char>)
    ensures
        chars@ == text@,
{
    let mut chars: Vec<char> = Vec::new();
    for c in it: text.chars()
        invariant
            it.seq() == text@,
            chars@ == it.seq().take(it.index() as int),
    {
        chars.push(c);
    }
    chars
}

/// The text made of `chars`.
pub fn from_chars(chars: &Vec<char>) -> (text: String)
    ensures
        text@ == chars@,
{
    let mut text = String::new();
    let mut i: usize = 0;
    while i < chars.len()
        invariant
            i <= chars.len(),
            text@ == chars@.take(i as int),
        decreases chars.len() - i,
    {
        text.push(chars[i]);
        i += 1;
    }
    text
}

/// Whether the two texts are the same.
pub fn same(left: &str, right: &str) -> (r: bool)
    ensures
        r == (left@ == right@),
{
    left.to_owned() == right.to_owned()
}

/// Whether `c` has the Unicode property White_Space.
pub open spec fn is_whitespace(c: char) -> bool {
    ||| 0x9 <= c as int <= 0xd
    ||| c as int == 0x20
    ||| c as int == 0x85
    ||| c as int == 0xa0
    ||| c as int == 0x1680
    ||| 0x2000 <= c as int <= 0x200a
    ||| 0x2028 <= c as int <= 0x2029
    ||| c as int == 0x202f
    ||| c as int == 0x205f
    ||| c as int == 0x3000
}

/// Whether `c` has the Unicode property White_Space.
pub fn whitespace(c: char) -> (r: bool)
    ensures
        r == is_whitespace(c),
{
    let code: u32 = c as u32;
    (0x9 <= code && code <= 0xd) || code == 0x20 || code == 0x85 || code == 0xa0 || code == 0x1680
        || (0x2000 <= code && code <= 0x200a) || (0x2028 <= code && code <= 0x2029) || code
        == 0x202f || code == 0x205f || code == 0x3000
}

/// Whether `text` holds nothing but white space.
pub open spec fn is_blank(text: Seq<char>) -> bool {
    forall|i: int| 0 <= i < text.len() ==> is_whitespace(#[trigger] text[i])
}

/// Whether `text` holds nothing but white space.
pub fn blank(text: &str) -> (r: bool)
    ensures
        r == is_blank(text@),
{
    let chars = to_chars(text);
    let mut i: usize = 0;
    while i < chars.len()
        invariant
            i <= chars.len(),
            chars@ == text@,
            forall|j: int| 0 <= j < i ==> is_whitespace(#[trigger] text@[j]),
        decreases chars.len() - i,
    {
        if !whitespace(chars[i]) {
            return false;
        }
        i += 1;
    }
    true
}

/// `text` without the white space it ends with.
pub open spec fn trimmed_end(text: Seq<char>) -> Seq<char>
    decreases text.len(),
{
    if text.len() > 0 && is_whitespace(text.last()) {
        trimmed_end(text.drop_last())
    } else {
        text
    }
}

/// `text` without the white space it starts with.
pub open spec fn trimmed_start(text: Seq<char>) -> Seq<char>
    decreases text.len(),
{
    if text.len() > 0 && is_whitespace(text[0]) {
        trimmed_start(text.drop_first())
    } else {
        text
    }
}

/// `text` without the white space around it.
pub open spec fn trimmed(text: Seq<char>) -> Seq<char> {
    trimmed_end(trimmed_start(text))
}

/// `text` without the white space it ends with.
pub fn trim_end(text: &str) -> (r: String)
    ensures
        r@ == trimmed_end(text@),
{
    let mut chars = to_chars(text);
    while chars.len() > 0 && whitespace(chars[chars.len() - 1])
        invariant
            trimmed_end(chars@) == trimmed_end(text@),
        decreases chars.len(),
    {
        let _ = chars.pop();
    }
    from_chars(&chars)
}

/// `text` without the white space around it.
pub fn trim(text: &str) -> (r: String)
    ensures
        r@ == trimmed(text@),
{
    let chars = to_chars(text);
    let mut from: usize = 0;
    assert(text@.skip(0) == text@);
    while from < chars.len() && whitespace(chars[from])
        invariant
            from <= chars.len(),
            chars@ == text@,
            trimmed_start(text@.skip(from as int)) == trimmed_start(text@),
        decreases chars.len() - from,
    {
        assert(text@.skip(from as int).drop_first() == text@.skip(from + 1));
        from += 1;
    }
    let rest = text.substring_char(from, chars.len());
    assert(rest@ == text@.skip(from as int));
    trim_end(rest)
}

/// Whether `text` begins with `prefix`.
pub fn starts_with(text: &str, prefix: &str) -> (r: bool)
    ensures
        r == prefix@.is_prefix_of(text@),
{
    let size = prefix.unicode_len();
    if text.unicode_len() < size {
        return false;
    }
    let head = text.substring_char(0, size);
    let r = same(head, prefix);
    proof {
        if r {
            assert(prefix@.is_prefix_of(text@));
        } else if prefix@.is_prefix_of(text@) {
            assert(head@ =~= prefix@);
        }
    }
    r
}

/// Whether `needle` stands somewhere in `text`.
pub open spec fn mentions(text: Seq<char>, needle: Seq<char>) -> bool {
    exists|i: int|
        0 <= i <= text.len() - needle.len() && #[trigger] text.subrange(i, i + needle.len())
            == needle
}

/// Whether `needle` stands somewhere in `text`.
pub fn contains(text: &str, needle: &str) -> (r: bool)
    ensures
        r == mentions(text@, needle@),
{
    let size = needle.unicode_len();
    let total = text.unicode_len();
    if total < size {
        return false;
    }
    let last = total - size;
    let mut i: usize = 0;
    loop
        invariant
            size == needle@.len(),
            total == text@.len(),
            last == total - size,
            i <= last,
            forall|j: int|
                0 <= j < i ==> #[trigger] text@.subrange(j, j + needle@.len()) != needle@,
        decreases last - i,
    {
        if same(text.substring_char(i, i + size), needle) {
            return true;
        }
        if i == last {
            return false;
        }
        i += 1;
    }
}

/// `text` with its ASCII capitals turned into small letters.
pub open spec fn ascii_lowercase(text: Seq<char>) -> Seq<char> {
    text.map_values(|c: char| lowercase_char(c))
}

/// The small letter of an ASCII capital; any other character itself.
pub open spec fn lowercase_char(c: char) -> char {
    if 'A' <= c <= 'Z' {
        ((c as u8) + 32) as u8 as char
    } else {
        c
    }
}

/// `text` with its ASCII capitals turned into small letters.
pub fn to_ascii_lowercase(text: &str) -> (r: String)
    ensures
        r@ == ascii_lowercase(text@),
{
    let mut r = String::new();
    for c in it: text.chars()
        invariant
            it.seq() == text@,
            r@ == ascii_lowercase(text@.take(it.index() as int)),
    {
        if 'A' <= c && c <= 'Z' {
            r.push((c as u8 + 32) as char);
        } else {
            r.push(c);
        }
        assert(text@.take(it.index() + 1).drop_last() == text@.take(it.index() as int));
        assert(ascii_lowercase(text@.take(it.index() + 1)) == ascii_lowercase(
            text@.take(it.index() as int),
        ).push(lowercase_char(c)));
    }
    assert(text@.take(text@.len() as int) == text@);
    r
}

/// What `str::get(..size)` reads, and the whole text where it reads nothing: the first `size`
/// bytes where they end a character.
pub open spec fn byte_prefix(text: Seq<char>, size: nat) -> Seq<char> {
    let bytes = encode_utf8(text);
    if is_char_boundary(bytes, size as int) {
        decode_utf8(bytes.subrange(0, size as int))
    } else {
        text
    }
}

/// The first `size` bytes of `text` where they end a character, else all of `text`.
pub fn take_bytes(text: &str, size: usize) -> (r: &str)
    ensures
        r@ == byte_prefix(text@, size as nat),
{
    if text.is_char_boundary(size) {
        let (head, _) = text.split_at(size);
        proof {
            encode_utf8_decode_utf8(head@);
        }
        head
    } else {
        text
    }
}

/// The first `size` characters of `text`.
pub fn take_chars(text: &str, size: usize) -> (r: String)
    ensures
        r@ == text@.take(if size <= text@.len() { size as int } else { text@.len() as int }),
{
    let total = text.unicode_len();
    if total < size {
        assert(text@.take(total as int) == text@);
        text.to_owned()
    } else {
        text.substring_char(0, size).to_owned()
    }
}

/// A sequence of texts written one after another with `separator` between them.
pub open spec fn joined(parts: Seq<Seq<char>>, separator: Seq<char>) -> Seq<char>
    decreases parts.len(),
{
    if parts.len() == 0 {
        Seq::empty()
    } else if parts.len() == 1 {
        parts[0]
    } else {
        joined(parts.drop_last(), separator) + separator + parts.last()
    }
}

/// What the texts of a list say.
pub open spec fn texts(list: Seq<String>) -> Seq<Seq<char>> {
    list.map_values(|text: String| text@)
}

/// The texts of `parts` with `separator` between them.
pub fn join(parts: &Vec<String>, separator: &str) -> (r: String)
    ensures
        r@ == joined(texts(parts@), separator@),
{
    let mut r = String::new();
    let mut i: usize = 0;
    while i < parts.len()
        invariant
            i <= parts.len(),
            r@ == joined(texts(parts@).take(i as int), separator@),
        decreases parts.len() - i,
    {
        if i > 0 {
            r.append(separator);
        }
        r.append(parts[i].as_str());
        proof {
            let now = texts(parts@).take(i + 1);
            assert(now.drop_last() == texts(parts@).take(i as int));
            assert(now.last() == parts@[i as int]@);
        }
        i += 1;
    }
    assert(texts(parts@).take(parts@.len() as int) == texts(parts@));
    r
}

/// The pieces of `text` between the occurrences of `separator`.
pub open spec fn pieces(text: Seq<char>, separator: char) -> Seq<Seq<char>>
    decreases text.len(),
{
    if text.len() == 0 {
        seq![Seq::empty()]
    } else {
        let before = pieces(text.drop_last(), separator);
        if text.last() == separator {
            before.push(Seq::empty())
        } else {
            before.drop_last().push(before.last().push(text.last()))
        }
    }
}

/// There is always a piece, and no piece holds the separator.
pub proof fn lemma_pieces(text: Seq<char>, separator: char)
    ensures
        pieces(text, separator).len() > 0,
        forall|i: int|
            0 <= i < pieces(text, separator).len() ==> !#[trigger] pieces(
                text,
                separator,
            )[i].contains(separator),
    decreases text.len(),
{
    if text.len() > 0 {
        let before = pieces(text.drop_last(), separator);
        lemma_pieces(text.drop_last(), separator);
        if text.last() != separator {
            let last = before.last();
            let grown = last.push(text.last());
            assert(!last.contains(separator));
            assert forall|j: int| 0 <= j < grown.len() implies grown[j] != separator by {
                if j < last.len() {
                    assert(grown[j] == last[j]);
                    assert(last.contains(last[j]));
                }
            }
        }
    }
}

/// The pieces of `text` between the occurrences of `separator`.
pub fn split(text: &str, separator: char) -> (r: Vec<String>)
    ensures
        texts(r@) == pieces(text@, separator),
{
    let mut r: Vec<String> = Vec::new();
    let mut piece = String::new();
    assert(texts(r@).push(piece@) == pieces(text@.take(0), separator));
    for c in it: text.chars()
        invariant
            it.seq() == text@,
            texts(r@).push(piece@) == pieces(text@.take(it.index() as int), separator),
    {
        let ghost before = pieces(text@.take(it.index() as int), separator);
        let ghost old_r = r@;
        let ghost old_piece = piece@;
        assert(text@.take(it.index() + 1).drop_last() == text@.take(it.index() as int));
        assert(before.drop_last() == texts(old_r));
        assert(before.last() == old_piece);
        if c == separator {
            r.push(piece);
            piece = String::new();
            assert(texts(r@) == texts(old_r).push(old_piece));
        } else {
            piece.push(c);
        }
    }
    assert(text@.take(text@.len() as int) == text@);
    let ghost old_r = r@;
    let ghost last = piece@;
    r.push(piece);
    assert(texts(r@) == texts(old_r).push(last));
    r
}

/// A line without the carriage return that belongs to its line ending.
pub open spec fn without_carriage_return(line: Seq<char>) -> Seq<char> {
    if line.len() > 0 && line.last() == '\r' {
        line.drop_last()
    } else {
        line
    }
}

/// The lines of `text`: each ends in a line feed, or a carriage return and a line feed, which is
/// not part of it; the last line may lack its ending.
pub open spec fn lines_of(text: Seq<char>) -> Seq<Seq<char>> {
    let parts = pieces(text, '\n');
    let ended = parts.drop_last().map_values(|line: Seq<char>| without_carriage_return(line));
    if parts.last().len() == 0 {
        ended
    } else {
        ended.push(parts.last())
    }
}

fn strip_carriage_return(line: &str) -> (r: String)
    ensures
        r@ == without_carriage_return(line@),
{
    let size = line.unicode_len();
    if size > 0 && line.get_char(size - 1) == '\r' {
        line.substring_char(0, size - 1).to_owned()
    } else {
        line.to_owned()
    }
}

/// The lines of `text`, without their endings.
pub fn lines(text: &str) -> (r: Vec<String>)
    ensures
        texts(r@) == lines_of(text@),
{
    let parts = split(text, '\n');
    proof {
        lemma_pieces(text@, '\n');
        assert(parts@.len() == texts(parts@).len());
    }
    let ghost all = pieces(text@, '\n');
    let last = parts.len() - 1;
    let mut r: Vec<String> = Vec::new();
    let mut i: usize = 0;
    while i < last
        invariant
            last == parts@.len() - 1,
            i <= last,
            texts(parts@) == all,
            texts(r@) == all.take(i as int).map_values(
                |line: Seq<char>| without_carriage_return(line),
            ),
        decreases last - i,
    {
        let line = strip_carriage_return(parts[i].as_str());
        let ghost old_r = r@;
        assert(parts@[i as int]@ == texts(parts@)[i as int]);
        r.push(line);
        assert(texts(r@) == texts(old_r).push(line@));
        assert(all.take(i + 1) == all.take(i as int).push(all[i as int]));
        i += 1;
    }
    assert(all.take(last as int) == all.drop_last());
    assert(parts@[last as int]@ == texts(parts@)[last as int]);
    if !parts[last].as_str().is_empty() {
        let ghost old_r = r@;
        r.push(parts[last].clone());
        assert(texts(r@) == texts(old_r).push(all.last()));
    }
    r
}

/// `text` followed by as many spaces as it takes to be `width` characters long.
pub open spec fn padded_right(text: Seq<char>, width: nat) -> Seq<char> {
    text + spaces((width - text.len()) as int)
}

/// `text` preceded by as many spaces as it takes to be `width` characters long.
pub open spec fn padded_left(text: Seq<char>, width: nat) -> Seq<char> {
    spaces((width - text.len()) as int) + text
}

/// `count` spaces; none where `count` is negative.
pub open spec fn spaces(count: int) -> Seq<char> {
    Seq::new(if count < 0 { 0 } else { count as nat }, |i: int| ' ')
}

fn fill(count: usize) -> (r: String)
    ensures
        r@ == spaces(count as int),
{
    let mut r = String::new();
    let mut i: usize = 0;
    while i < count
        invariant
            i <= count,
            r@ == spaces(i as int),
        decreases count - i,
    {
        r.push(' ');
        i += 1;
    }
    r
}

/// `text` at the left of a column `width` characters wide.
pub fn pad_right(text: &str, width: usize) -> (r: String)
    ensures
        r@ == padded_right(text@, width as nat),
{
    let size = text.unicode_len();
    let mut r = text.to_owned();
    if size < width {
        r.append(fill(width - size).as_str());
    } else {
        assert(r@ == padded_right(text@, width as nat));
    }
    r
}

/// `text` at the right of a column `width` characters wide.
pub fn pad_left(text: &str, width: usize) -> (r: String)
    ensures
        r@ == padded_left(text@, width as nat),
{
    let size = text.unicode_len();
    if size < width {
        let mut r = fill(width - size);
        r.append(text);
        r
    } else {
        assert(text@ == padded_left(text@, width as nat));
        text.to_owned()
    }
}

/// How the `Debug` form of a string writes `text`: between double quotes, with the characters
/// that need it escaped.
pub uninterp spec fn quoted(text: Seq<char>) -> Seq<char>;

/// Writes `text` as the `Debug` implementation of `str` does. What that gives depends on the text
/// alone: it is `quoted` of it.
#[verifier::external_body]
pub(crate) fn quote(text: &str) -> (r: String)
    ensures
        r@ == quoted(text@),
{
    format!("{text:?}")
}

/// Three texts written one after another.
pub fn concat3(first: &str, second: &str, third: &str) -> (r: String)
    ensures
        r@ == first@ + second@ + third@,
{
    let mut r = first.to_owned();
    r.append(second);
    r.append(third);
    r
}

/// Two texts written one after the other.
pub fn concat2(first: &str, second: &str) -> (r: String)
    ensures
        r@ == first@ + second@,
{
    let mut r = first.to_owned();
    r.append(second);
    r
}

/// What an optional text says.
pub open spec fn opt_view(text: Option<String>) -> Option<Seq<char>> {
    match text {
        Some(text) => Some(text@),
        None => None,
    }
}

/// What an optional text says.
pub open spec fn opt_str(text: Option<&str>) -> Option<Seq<char>> {
    match text {
        Some(text) => Some(text@),
        None => None,
    }
}

/// The text of an optional `String`.
pub fn as_opt_str(text: &Option<String>) -> (r: Option<&str>)
    ensures
        opt_str(r) == opt_view(*text),
{
    match text {
        Some(text) => Some(text.as_str()),
        None => None,
    }
}

/// The same list of texts once more.
pub fn copy_texts(list: &Vec<String>) -> (r: Vec<String>)
    ensures
        texts(r@) == texts(list@),
{
    let mut r: Vec<String> = Vec::new();
    append_texts(&mut r, list);
    assert(texts(r@) == texts(list@));
    r
}

/// Adds the texts of `list` to the end of `to`.
pub fn append_texts(to: &mut Vec<String>, list: &Vec<String>)
    ensures
        texts(final(to)@) == texts(old(to)@) + texts(list@),
{
    let ghost before = texts(to@);
    let mut i: usize = 0;
    while i < list.len()
        invariant
            i <= list@.len(),
            before == texts(old(to)@),
            texts(to@) == before + texts(list@).take(i as int),
        decreases list.len() - i,
    {
        let ghost now = to@;
        to.push(list[i].clone());
        assert(texts(to@) == texts(now).push(list@[i as int]@));
        i += 1;
    }
    assert(texts(list@).take(list@.len() as int) == texts(list@));
}

proof fn lemma_pieces_of_two(first: Seq<char>, second: Seq<char>, separator: char)
    requires
        first.len() == 0 || first.last() == separator,
    ensures
        pieces(first + second, separator) == pieces(first, separator).drop_last() + pieces(
            second,
            separator,
        ),
        pieces(first, separator).last() == Seq::<char>::empty(),
        pieces(first, separator).len() > 0,
        pieces(second, separator).len() > 0,
    decreases second.len(),
{
    lemma_pieces(first, separator);
    lemma_pieces(second, separator);
    let head = pieces(first, separator).drop_last();
    if second.len() == 0 {
        assert(first + second =~= first);
        assert(head + pieces(second, separator) =~= pieces(first, separator));
    } else {
        lemma_pieces_of_two(first, second.drop_last(), separator);
        lemma_pieces(second.drop_last(), separator);
        assert((first + second).drop_last() =~= first + second.drop_last());
        assert((first + second).last() == second.last());
        assert(pieces(first + second, separator) =~= head + pieces(second, separator));
    }
}

proof fn lemma_one_piece(text: Seq<char>, separator: char)
    requires
        !text.contains(separator),
    ensures
        pieces(text, separator) == seq![text],
    decreases text.len(),
{
    if text.len() > 0 {
        assert(text.contains(text.last()));
        assert forall|i: int| 0 <= i < text.drop_last().len() implies text.drop_last()[i]
            != separator by {
            assert(text.contains(text[i]));
        }
        lemma_one_piece(text.drop_last(), separator);
        assert(text.drop_last().push(text.last()) =~= text);
    } else {
        assert(text =~= Seq::empty());
    }
    assert(pieces(text, separator) =~= seq![text]);
}

/// A text without the separator is one piece, and the separator ends a piece: what stands before
/// it, and then the pieces of what stands after it.
pub proof fn law_separator_ends_a_piece(before: Seq<char>, after: Seq<char>, separator: char)
    requires
        !before.contains(separator),
    ensures
        pieces(before, separator) == seq![before],
        pieces(before.push(separator) + after, separator) == seq![before] + pieces(
            after,
            separator,
        ),
{
    lemma_one_piece(before, separator);
    lemma_pieces_of_two(before.push(separator), after, separator);
    assert(before.push(separator).drop_last() =~= before);
    assert(pieces(before.push(separator), separator).drop_last() =~= seq![before]);
}

/// The lines of two texts, of which the first is complete, are the lines of the first and then
/// those of the second.
pub proof fn law_lines_of_two_texts(first: Seq<char>, second: Seq<char>)
    requires
        first.len() == 0 || first.last() == '\n',
    ensures
        lines_of(first + second) == lines_of(first) + lines_of(second),
{
    lemma_pieces_of_two(first, second, '\n');
    let strip = |line: Seq<char>| without_carriage_return(line);
    let one = pieces(first, '\n');
    let two = pieces(second, '\n');
    let both = pieces(first + second, '\n');
    assert(both.last() == two.last());
    assert(both.drop_last() =~= one.drop_last() + two.drop_last());
    assert(both.drop_last().map_values(strip) =~= one.drop_last().map_values(strip)
        + two.drop_last().map_values(strip));
    assert(lines_of(first + second) =~= lines_of(first) + lines_of(second));
}

/// What stands before a line ending is one line, with neither a line feed nor a carriage return
/// before it; so is what stands at the end without a line ending, unless it is nothing.
pub proof fn law_line_is_what_stands_before_its_ending(line: Seq<char>)
    requires
        !line.contains('\n'),
    ensures
        lines_of(line) == (if line.len() == 0 {
            Seq::empty()
        } else {
            seq![line]
        }),
        lines_of(line.push('\r').push('\n')) == seq![line],
        (line.len() == 0 || line.last() != '\r') ==> lines_of(line.push('\n')) == seq![line],
        (line.len() > 0 && line.last() == '\r') ==> lines_of(line.push('\n')) == seq![
            line.drop_last(),
        ],
{
    let strip = |text: Seq<char>| without_carriage_return(text);
    lemma_one_piece(line, '\n');
    lemma_one_piece(Seq::empty(), '\n');
    law_separator_ends_a_piece(line, Seq::empty(), '\n');
    assert(line.push('\n') + Seq::<char>::empty() =~= line.push('\n'));
    assert(pieces(line.push('\n'), '\n') =~= seq![line, Seq::empty()]);
    assert(seq![line, Seq::<char>::empty()].drop_last() =~= seq![line]);
    assert(seq![line].map_values(strip) =~= seq![without_carriage_return(line)]);
    assert(seq![line].drop_last() =~= Seq::<Seq<char>>::empty());
    assert(Seq::<Seq<char>>::empty().map_values(strip) =~= Seq::<Seq<char>>::empty());
    assert(lines_of(line) =~= if line.len() == 0 {
        Seq::empty()
    } else {
        seq![line]
    });
    let returned = line.push('\r');
    assert forall|i: int| 0 <= i < returned.len() implies returned[i] != '\n' by {
        if i < line.len() {
            assert(line.contains(line[i]));
        }
    }
    lemma_one_piece(returned, '\n');
    law_separator_ends_a_piece(returned, Seq::empty(), '\n');
    assert(returned.push('\n') + Seq::<char>::empty() =~= returned.push('\n'));
    assert(pieces(returned.push('\n'), '\n') =~= seq![returned, Seq::empty()]);
    assert(seq![returned, Seq::<char>::empty()].drop_last() =~= seq![returned]);
    assert(seq![returned].map_values(strip) =~= seq![without_carriage_return(returned)]);
    assert(returned.drop_last() =~= line);
}

/// Texts that are joined stand one after another, with the separator wherever two meet.
pub proof fn law_joined_texts_meet_at_separators(
    first: Seq<Seq<char>>,
    second: Seq<Seq<char>>,
    separator: Seq<char>,
)
    ensures
        joined(Seq::empty(), separator) == Seq::<char>::empty(),
        first.len() == 1 ==> joined(first, separator) == first[0],
        first.len() > 0 && second.len() > 0 ==> joined(first + second, separator) == joined(
            first,
            separator,
        ) + separator + joined(second, separator),
    decreases second.len(),
{
    if first.len() > 0 && second.len() > 0 {
        let both = first + second;
        assert(both.drop_last() =~= first + second.drop_last());
        assert(both.last() == second.last());
        if second.len() == 1 {
            assert(both.drop_last() =~= first);
        } else {
            law_joined_texts_meet_at_separators(first, second.drop_last(), separator);
        }
        assert(joined(both, separator) =~= joined(first, separator) + separator + joined(
            second,
            separator,
        ));
    }
}

/// Trimming takes white space off both ends and nothing else, until neither end is white space.
pub proof fn law_trimming_takes_only_the_white_space_around(text: Seq<char>)
    ensures
        exists|from: int, to: int|
            0 <= from <= to <= text.len() && #[trigger] text.subrange(from, to) == trimmed(text)
                && (forall|i: int|
                0 <= i < from || to <= i < text.len() ==> is_whitespace(#[trigger] text[i])),
        trimmed(text).len() > 0 ==> !is_whitespace(trimmed(text)[0]) && !is_whitespace(
            trimmed(text).last(),
        ),
        is_blank(text) <==> trimmed(text).len() == 0,
        exists|to: int|
            0 <= to <= text.len() && #[trigger] text.take(to) == trimmed_end(text) && (forall|i: int|
                to <= i < text.len() ==> is_whitespace(#[trigger] text[i])),
        trimmed_end(text).len() > 0 ==> !is_whitespace(trimmed_end(text).last()),
{
    let from = lemma_trimmed_start(text);
    let rest = text.skip(from);
    let size = lemma_trimmed_end(rest);
    assert(text.subrange(from, from + size) =~= rest.take(size));
    assert forall|i: int| 0 <= i < from || from + size <= i < text.len() implies is_whitespace(
        #[trigger] text[i],
    ) by {
        if i >= from {
            assert(rest[i - from] == text[i]);
        }
    }
    if size > 0 {
        assert(rest.take(size)[0] == rest[0]);
        assert(rest[0] == text[from]);
        assert(!is_blank(text));
    }
    let end = lemma_trimmed_end(text);
    assert(text.take(end) == trimmed_end(text));
}

proof fn lemma_trimmed_start(text: Seq<char>) -> (from: int)
    ensures
        0 <= from <= text.len(),
        trimmed_start(text) == text.skip(from),
        forall|i: int| 0 <= i < from ==> is_whitespace(#[trigger] text[i]),
        from < text.len() ==> !is_whitespace(text[from]),
    decreases text.len(),
{
    if text.len() > 0 && is_whitespace(text[0]) {
        let rest = text.drop_first();
        let from = lemma_trimmed_start(rest);
        assert(rest.skip(from) =~= text.skip(from + 1));
        assert forall|i: int| 0 <= i < from + 1 implies is_whitespace(#[trigger] text[i]) by {
            if i > 0 {
                assert(rest[i - 1] == text[i]);
            }
        }
        if from < rest.len() {
            assert(rest[from] == text[from + 1]);
        }
        from + 1
    } else {
        assert(text.skip(0) =~= text);
        0
    }
}

proof fn lemma_trimmed_end(text: Seq<char>) -> (to: int)
    ensures
        0 <= to <= text.len(),
        trimmed_end(text) == text.take(to),
        forall|i: int| to <= i < text.len() ==> is_whitespace(#[trigger] text[i]),
        to > 0 ==> !is_whitespace(text[to - 1]),
    decreases text.len(),
{
    if text.len() > 0 && is_whitespace(text.last()) {
        let rest = text.drop_last();
        let to = lemma_trimmed_end(rest);
        assert(rest.take(to) =~= text.take(to));
        assert forall|i: int| to <= i < text.len() implies is_whitespace(#[trigger] text[i]) by {
            if i < rest.len() {
                assert(rest[i] == text[i]);
            }
        }
        to
    } else {
        assert(text.take(text.len() as int) =~= text);
        text.len() as int
    }
}

/// A text is blank exactly where its parts are; a visible character of ASCII is never white space,
/// and a space, a tab and a line ending always are.
pub proof fn law_blank_text_is_made_of_white_space(first: Seq<char>, second: Seq<char>, c: char)
    ensures
        is_blank(first + second) <==> is_blank(first) && is_blank(second),
        is_blank(Seq::<char>::empty()),
        is_blank(seq![c]) <==> is_whitespace(c),
        0x21 <= c as int <= 0x7e ==> !is_whitespace(c),
        c == ' ' || c == '\t' || c == '\n' || c == '\r' ==> is_whitespace(c),
{
    let both = first + second;
    if is_blank(both) {
        assert forall|i: int| 0 <= i < first.len() implies is_whitespace(#[trigger] first[i]) by {
            assert(both[i] == first[i]);
        }
        assert forall|i: int| 0 <= i < second.len() implies is_whitespace(#[trigger] second[i]) by {
            assert(both[first.len() + i] == second[i]);
        }
    }
    assert(seq![c][0] == c);
}

/// A text mentions what stands in it, wherever it stands; what it mentions stands in it.
pub proof fn law_text_mentions_what_stands_in_it(
    before: Seq<char>,
    needle: Seq<char>,
    after: Seq<char>,
    text: Seq<char>,
)
    ensures
        mentions(before + needle + after, needle),
        mentions(text, needle) ==> exists|i: int|
            0 <= i && i + needle.len() <= text.len() && (forall|k: int|
                0 <= k < needle.len() ==> text[i + k] == #[trigger] needle[k]) && #[trigger] text.take(
                i,
            ).len() == i,
{
    let whole = before + needle + after;
    let at = before.len() as int;
    assert(whole.subrange(at, at + needle.len()) =~= needle);
    if mentions(text, needle) {
        let i = choose|i: int|
            0 <= i <= text.len() - needle.len() && #[trigger] text.subrange(i, i + needle.len())
                == needle;
        assert forall|k: int| 0 <= k < needle.len() implies text[i + k] == #[trigger] needle[k] by {
            assert(text.subrange(i, i + needle.len())[k] == text[i + k]);
        }
        assert(text.take(i).len() == i);
    }
}

/// Turning capitals into small letters changes each ASCII capital and nothing else.
pub proof fn law_only_capitals_are_made_small(text: Seq<char>, i: int)
    requires
        0 <= i < text.len(),
    ensures
        ascii_lowercase(text).len() == text.len(),
        65 <= text[i] as int <= 90 ==> ascii_lowercase(text)[i] as int == text[i] as int + 32,
        !(65 <= text[i] as int <= 90) ==> ascii_lowercase(text)[i] == text[i],
{
}

/// A text in a column is kept whole, and spaces fill the column where it is shorter.
pub proof fn law_columns_are_filled_with_spaces(text: Seq<char>, width: nat)
    ensures
        padded_right(text, width).len() == (if text.len() < width {
            width
        } else {
            text.len()
        }),
        padded_left(text, width).len() == padded_right(text, width).len(),
        text.is_prefix_of(padded_right(text, width)),
        forall|i: int|
            text.len() <= i < width ==> #[trigger] padded_right(text, width)[i] == ' ',
        padded_left(text, width).skip(padded_left(text, width).len() - text.len()) == text,
        forall|i: int|
            0 <= i < width - text.len() ==> #[trigger] padded_left(text, width)[i] == ' ',
{
    assert(padded_left(text, width).skip(padded_left(text, width).len() - text.len()) =~= text);
}

/// Of a text in ASCII, so many bytes are so many characters; a shorter one is kept whole.
pub proof fn law_bytes_of_ascii_are_characters(text: Seq<char>, size: nat)
    requires
        is_ascii_chars(text),
    ensures
        byte_prefix(text, size) == (if size <= text.len() {
            text.take(size as int)
        } else {
            text
        }),
{
    is_ascii_chars_encode_utf8(text);
    encode_utf8_valid_utf8(text);
    let bytes = encode_utf8(text);
    is_char_boundary_start_end_of_seq(bytes);
    if size <= text.len() {
        let head = text.take(size as int);
        assert(is_ascii_chars(head));
        is_ascii_chars_encode_utf8(head);
        encode_utf8_decode_utf8(head);
        if size < text.len() {
            assert(text[size as int] as u8 == bytes[size as int]);
            let byte = bytes[size as int];
            assert(byte < 0x80);
            is_char_boundary_iff_not_is_continuation_byte(bytes, size as int);
        }
        assert(bytes.subrange(0, size as int) =~= encode_utf8(head)) by {
            assert forall|i: int| 0 <= i < size implies bytes.subrange(0, size as int)[i]
                == encode_utf8(head)[i] by {
                assert(text[i] as u8 == bytes[i]);
                assert(head[i] as u8 == encode_utf8(head)[i]);
            }
        }
    }
}

/// Names that are written on a line each are read back as they were.
pub proof fn law_lines_read_back(names: Seq<Seq<char>>)
    requires
        forall|i: int|
            0 <= i < names.len() ==> {
                &&& (#[trigger] names[i]).len() > 0
                &&& !names[i].contains('\n')
                &&& !names[i].contains('\r')
            },
    ensures
        lines_of(joined(names, seq!['\n'])) == names,
    decreases names.len(),
{
    let ending = seq!['\n'];
    if names.len() == 0 {
        law_line_is_what_stands_before_its_ending(Seq::empty());
        assert(names =~= Seq::empty());
    } else {
        let first = names[0];
        let rest = names.drop_first();
        assert(first.contains(first.last()));
        law_line_is_what_stands_before_its_ending(first);
        assert forall|i: int| 0 <= i < rest.len() implies {
            &&& (#[trigger] rest[i]).len() > 0
            &&& !rest[i].contains('\n')
            &&& !rest[i].contains('\r')
        } by {
            assert(rest[i] == names[i + 1]);
        }
        law_lines_read_back(rest);
        law_joined_texts_meet_at_separators(seq![first], rest, ending);
        if rest.len() == 0 {
            assert(names =~= seq![first]);
        } else {
            assert(names =~= seq![first] + rest);
            assert(first + ending =~= first.push('\n'));
            law_lines_of_two_texts(first.push('\n'), joined(rest, ending));
        }
    }
}

/// A text that is joined with others stands in the whole as it is.
pub proof fn law_joined_text_mentions_its_parts(
    parts: Seq<Seq<char>>,
    separator: Seq<char>,
    i: int,
)
    requires
        0 <= i < parts.len(),
    ensures
        mentions(joined(parts, separator), parts[i]),
{
    let before = parts.take(i);
    let part = seq![parts[i]];
    let after = parts.skip(i + 1);
    let empty = Seq::<char>::empty();
    law_joined_texts_meet_at_separators(part, after, separator);
    law_joined_texts_meet_at_separators(before, part + after, separator);
    assert(parts =~= before + (part + after));
    let tail = if after.len() > 0 {
        separator + joined(after, separator)
    } else {
        empty
    };
    let head = if before.len() > 0 {
        joined(before, separator) + separator
    } else {
        empty
    };
    if after.len() == 0 {
        assert(part + after =~= part);
    }
    assert(joined(part + after, separator) =~= parts[i] + tail);
    if before.len() == 0 {
        assert(before + (part + after) =~= part + after);
    }
    assert(joined(parts, separator) =~= head + parts[i] + tail);
    law_text_mentions_what_stands_in_it(head, parts[i], tail, empty);
}

/// The texts of a list are those of its strings, one by one; an optional text is there where its
/// string is.
pub proof fn law_texts_are_those_of_the_strings(
    list: Seq<String>,
    text: Option<String>,
    slice: Option<&str>,
)
    ensures
        texts(list).len() == list.len(),
        forall|i: int| 0 <= i < list.len() ==> #[trigger] texts(list)[i] == list[i]@,
        text is Some ==> opt_view(text) == Some(text->Some_0@),
        text is None ==> opt_view(text) is None,
        slice is Some ==> opt_str(slice) == Some(slice->Some_0@),
        slice is None ==> opt_str(slice) is None,
{
}

/// What is mentioned by something that a text mentions, the text mentions too.
pub proof fn law_mentions_are_passed_on(text: Seq<char>, part: Seq<char>, needle: Seq<char>)
    requires
        mentions(text, part),
        mentions(part, needle),
    ensures
        mentions(text, needle),
{
    let outer = choose|i: int|
        0 <= i <= text.len() - part.len() && #[trigger] text.subrange(i, i + part.len()) == part;
    let inner = choose|i: int|
        0 <= i <= part.len() - needle.len() && #[trigger] part.subrange(i, i + needle.len())
            == needle;
    let at = outer + inner;
    assert(text.subrange(at, at + needle.len()) =~= needle) by {
        assert forall|k: int| 0 <= k < needle.len() implies text.subrange(
            at,
            at + needle.len(),
        )[k] == needle[k] by {
            assert(part.subrange(inner, inner + needle.len())[k] == part[inner + k]);
            assert(text.subrange(outer, outer + part.len())[inner + k] == text[at + k]);
        }
    }
}

/// Of three texts one after another, the whole begins with the first, ends with the last and
/// mentions the one between.
pub proof fn law_texts_in_a_row(first: Seq<char>, second: Seq<char>, third: Seq<char>)
    ensures
        first.is_prefix_of(first + second + third),
        third.is_suffix_of(first + second + third),
        mentions(first + second + third, second),
        first + second + third == first + (second + third),
{
    let whole = first + second + third;
    assert(whole.subrange(0, first.len() as int) =~= first);
    assert(whole.subrange(whole.len() - third.len(), whole.len() as int) =~= third);
    law_text_mentions_what_stands_in_it(first, second, third, whole);
    assert(whole =~= first + (second + third));
}

proof fn lemma_first_characters_end_at_a_boundary(text: Seq<char>, count: int)
    requires
        0 <= count <= text.len(),
    ensures
        encode_utf8(text.take(count)).len() <= encode_utf8(text).len(),
        encode_utf8(text).subrange(0, encode_utf8(text.take(count)).len() as int) == encode_utf8(
            text.take(count),
        ),
        is_char_boundary(encode_utf8(text), encode_utf8(text.take(count)).len() as int),
    decreases text.len(),
{
    let bytes = encode_utf8(text);
    let head = text.take(count);
    encode_utf8_valid_utf8(text);
    if count == 0 {
        assert(head =~= Seq::empty());
        assert(bytes.subrange(0, 0) =~= encode_utf8(head));
        is_char_boundary_start_end_of_seq(bytes);
    } else {
        let rest = text.drop_first();
        lemma_first_characters_end_at_a_boundary(rest, count - 1);
        encode_utf8_first_scalar(text);
        encode_utf8_first_scalar(head);
        assert(head.drop_first() =~= rest.take(count - 1));
        assert(head[0] == text[0]);
        let first = encode_scalar(text[0] as u32);
        assert(bytes == first + encode_utf8(rest));
        assert(encode_utf8(head) == first + encode_utf8(rest.take(count - 1)));
        assert(pop_first_scalar(bytes) =~= encode_utf8(rest));
        let size = encode_utf8(head).len() as int;
        assert(size - first.len() == encode_utf8(rest.take(count - 1)).len());
        assert(bytes.subrange(0, size) =~= encode_utf8(head)) by {
            let inner = encode_utf8(rest).subrange(0, size - first.len());
            assert(bytes.subrange(0, size) =~= first + inner);
        }
    }
}

proof fn lemma_boundary_ends_some_characters(text: Seq<char>, size: int) -> (count: int)
    requires
        is_char_boundary(encode_utf8(text), size),
    ensures
        0 <= count <= text.len(),
        encode_utf8(text.take(count)).len() == size,
    decreases text.len(),
{
    let bytes = encode_utf8(text);
    encode_utf8_valid_utf8(text);
    if size == 0 {
        assert(text.take(0) =~= Seq::empty());
        0
    } else {
        assert(bytes.len() > 0);
        assert(text.len() > 0);
        let rest = text.drop_first();
        encode_utf8_first_scalar(text);
        let first = encode_scalar(text[0] as u32);
        assert(pop_first_scalar(bytes) =~= encode_utf8(rest));
        let count = lemma_boundary_ends_some_characters(rest, size - first.len());
        let head = text.take(count + 1);
        assert(head.drop_first() =~= rest.take(count));
        assert(head[0] == text[0]);
        count + 1
    }
}

/// The first bytes of a text are its first characters where they take up just so many bytes; where
/// no row of first characters does, the text is kept whole.
pub proof fn law_bytes_end_with_a_character(text: Seq<char>, count: int, size: nat)
    requires
        0 <= count <= text.len(),
    ensures
        byte_prefix(text, encode_utf8(text.take(count)).len()) == text.take(count),
        (forall|k: int|
            0 <= k <= text.len() ==> encode_utf8(#[trigger] text.take(k)).len() != size)
            ==> byte_prefix(text, size) == text,
{
    lemma_first_characters_end_at_a_boundary(text, count);
    encode_utf8_decode_utf8(text.take(count));
    if is_char_boundary(encode_utf8(text), size as int) {
        let k = lemma_boundary_ends_some_characters(text, size as int);
        assert(encode_utf8(text.take(k)).len() == size);
    }
}

/// The white space of ASCII is the space, the tab and what ends or feeds a line or a page; beyond
/// ASCII it is these code points and no others.
pub proof fn law_white_space_is_this_only(c: char)
    ensures
        (c as int) < 0x80 ==> (is_whitespace(c) <==> c as int == 9 || c as int == 10 || c as int
            == 11 || c as int == 12 || c as int == 13 || c as int == 32),
        (c as int) >= 0x80 ==> (is_whitespace(c) <==> seq![
            0x85,
            0xa0,
            0x1680,
            0x2000,
            0x2001,
            0x2002,
            0x2003,
            0x2004,
            0x2005,
            0x2006,
            0x2007,
            0x2008,
            0x2009,
            0x200a,
            0x2028,
            0x2029,
            0x202f,
            0x205f,
            0x3000int,
        ].contains(c as int)),
{
    let all = seq![
        0x85,
        0xa0,
        0x1680,
        0x2000,
        0x2001,
        0x2002,
        0x2003,
        0x2004,
        0x2005,
        0x2006,
        0x2007,
        0x2008,
        0x2009,
        0x200a,
        0x2028,
        0x2029,
        0x202f,
        0x205f,
        0x3000int,
    ];
    let code = c as int;
    if code >= 0x80 && is_whitespace(c) {
        if 0x2000 <= code <= 0x200a {
            assert(all[3 + (code - 0x2000)] == code);
        } else {
            assert(all[0] == 0x85 && all[1] == 0xa0 && all[2] == 0x1680);
            assert(all[14] == 0x2028 && all[15] == 0x2029);
            assert(all[16] == 0x202f && all[17] == 0x205f && all[18] == 0x3000);
        }
    }
}

} // verus!
