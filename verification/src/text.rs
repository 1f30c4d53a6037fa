//! Building and reading text: characters, decimal numbers, hexadecimal
//! bytes and separated fields.

use vstd::prelude::*;

verus! {

/// Calls `String::push`, which appends one character to the string.
#[verifier::external_body]
fn string_push(s: &mut String, c: char)
    ensures
        final(s)@ == old(s)@.push(c),
{
    s.push(c)
}

/// The string that holds exactly the given characters.
pub fn string_of(chars: &Vec<char>) -> (s: String)
    ensures
        s@ == chars@,
{
    let mut s = String::new();
    let mut i: usize = 0;
    while i < chars.len()
        invariant
            i <= chars@.len(),
            s@ == chars@.take(i as int),
        decreases chars@.len() - i,
    {
        string_push(&mut s, chars[i]);
        i = i + 1;
        assert(chars@.take(i as int) =~= chars@.take(i - 1).push(chars@[i - 1]));
    }
    assert(chars@.take(i as int) =~= chars@);
    s
}

/// The characters of a string, in order.
pub fn chars_of(s: &str) -> (chars: Vec<char>)
    ensures
        chars@ == s@,
{
    let n = s.unicode_len();
    let mut chars: Vec<char> = Vec::new();
    let mut i: usize = 0;
    while i < n
        invariant
            i <= n,
            n == s@.len(),
            chars@ == s@.take(i as int),
        decreases n - i,
    {
        chars.push(s.get_char(i));
        i = i + 1;
        assert(s@.take(i as int) =~= s@.take(i - 1).push(s@[i - 1]));
    }
    assert(s@.take(i as int) =~= s@);
    chars
}

/// Appends the characters of `text` to `out`.
pub fn push_text(out: &mut Vec<char>, text: &str)
    ensures
        final(out)@ == old(out)@ + text@,
{
    let chars = chars_of(text);
    push_chars(out, &chars);
}

/// Appends `chars` to `out`.
pub fn push_chars(out: &mut Vec<char>, chars: &Vec<char>)
    ensures
        final(out)@ == old(out)@ + chars@,
{
    let mut i: usize = 0;
    while i < chars.len()
        invariant
            i <= chars@.len(),
            out@ == old(out)@ + chars@.take(i as int),
        decreases chars@.len() - i,
    {
        out.push(chars[i]);
        i = i + 1;
        assert(chars@.take(i as int) =~= chars@.take(i - 1).push(chars@[i - 1]));
    }
    assert(chars@.take(i as int) =~= chars@);
}

/// Whether the characters of `input` from `from` up to `to` are `expected`.
pub fn range_is(input: &Vec<char>, from: usize, to: usize, expected: &Vec<char>) -> (r: bool)
    requires
        from <= to <= input@.len(),
    ensures
        r == (input@.subrange(from as int, to as int) == expected@),
{
    if to - from != expected.len() {
        return false;
    }
    let ghost part = input@.subrange(from as int, to as int);
    let mut i: usize = 0;
    while i < expected.len()
        invariant
            from <= to <= input@.len(),
            to - from == expected@.len(),
            i <= expected@.len(),
            part == input@.subrange(from as int, to as int),
            forall|j: int| 0 <= j < i ==> part[j] == expected@[j],
        decreases expected@.len() - i,
    {
        if input[from + i] != expected[i] {
            assert(part[i as int] != expected@[i as int]);
            return false;
        }
        i = i + 1;
    }
    assert(part =~= expected@);
    true
}

/// Whether `input` holds `expected` at position `from`.
pub fn holds_at(input: &Vec<char>, from: usize, expected: &Vec<char>) -> (r: bool)
    requires
        from <= input@.len(),
    ensures
        r == starts_with(input@.skip(from as int), expected@),
{
    if input.len() - from < expected.len() {
        return false;
    }
    let to = from + expected.len();
    assert(input@.skip(from as int).take(expected@.len() as int) =~= input@.subrange(
        from as int,
        to as int,
    ));
    range_is(input, from, to, expected)
}

/// Whether two texts hold the same characters.
pub fn same_text(a: &str, b: &str) -> (r: bool)
    ensures
        r == (a@ == b@),
{
    let left = chars_of(a);
    let right = chars_of(b);
    let r = range_is(&left, 0, left.len(), &right);
    assert(left@.subrange(0, left@.len() as int) =~= left@);
    r
}

/// Whether `s` begins with `lead`.
pub open spec fn starts_with(s: Seq<char>, lead: Seq<char>) -> bool {
    s.len() >= lead.len() && s.take(lead.len() as int) == lead
}

/// A text that begins with `lead` starts with it.
pub proof fn lemma_starts_with(lead: Seq<char>, rest: Seq<char>)
    ensures
        starts_with(lead + rest, lead),
        (lead + rest).skip(lead.len() as int) == rest,
{
    assert((lead + rest).take(lead.len() as int) =~= lead);
    assert((lead + rest).skip(lead.len() as int) =~= rest);
}

// ------------------------------------------------------------------
// Separated fields

/// How many characters of `s` stand ahead of the first `sep`, or the length
/// of `s` where it holds none.
pub open spec fn field_end(s: Seq<char>, sep: char) -> int
    decreases s.len(),
{
    if s.len() == 0 || s[0] == sep {
        0
    } else {
        1 + field_end(s.drop_first(), sep)
    }
}

/// Whether `sep` occurs nowhere in `s`.
pub open spec fn free_of(s: Seq<char>, sep: char) -> bool {
    forall|i: int| 0 <= i < s.len() ==> #[trigger] s[i] != sep
}

pub proof fn lemma_field_end_bounds(s: Seq<char>, sep: char)
    ensures
        0 <= field_end(s, sep) <= s.len(),
        field_end(s, sep) < s.len() ==> s[field_end(s, sep)] == sep,
        free_of(s.take(field_end(s, sep)), sep),
    decreases s.len(),
{
    if s.len() != 0 && s[0] != sep {
        let rest = s.drop_first();
        lemma_field_end_bounds(rest, sep);
        let e = field_end(rest, sep);
        let head = s.take(e + 1);
        assert forall|i: int| 0 <= i < head.len() implies #[trigger] head[i] != sep by {
            if i > 0 {
                assert(head[i] == rest.take(e)[i - 1]);
            }
        }
    }
}

/// Two texts that hold no separator hold none when they are joined.
pub proof fn lemma_free_of_joined(a: Seq<char>, b: Seq<char>, sep: char)
    requires
        free_of(a, sep),
        free_of(b, sep),
    ensures
        free_of(a + b, sep),
{
    assert forall|i: int| 0 <= i < (a + b).len() implies #[trigger] (a + b)[i] != sep by {
        if i < a.len() {
            assert((a + b)[i] == a[i]);
        } else {
            assert((a + b)[i] == b[i - a.len()]);
        }
    }
}

/// A field that holds no separator ends where the separator behind it
/// stands.
pub proof fn lemma_field_end_found(field: Seq<char>, sep: char, rest: Seq<char>)
    requires
        free_of(field, sep),
    ensures
        field_end(field + seq![sep] + rest, sep) == field.len(),
    decreases field.len(),
{
    let s = field + seq![sep] + rest;
    if field.len() == 0 {
        assert(s[0] == sep);
    } else {
        assert(s[0] == field[0]);
        assert(s.drop_first() =~= field.drop_first() + seq![sep] + rest);
        lemma_field_end_found(field.drop_first(), sep, rest);
    }
}

/// A text that holds no separator is one field.
pub proof fn lemma_field_end_whole(field: Seq<char>, sep: char)
    requires
        free_of(field, sep),
    ensures
        field_end(field, sep) == field.len(),
    decreases field.len(),
{
    if field.len() != 0 {
        lemma_field_end_whole(field.drop_first(), sep);
    }
}

/// Finds the end of the field that starts at `from`.
pub fn find_field_end(input: &Vec<char>, from: usize, sep: char) -> (end: usize)
    requires
        from <= input@.len(),
    ensures
        end == from + field_end(input@.skip(from as int), sep),
        from <= end <= input@.len(),
{
    let mut i: usize = from;
    while i < input.len() && input[i] != sep
        invariant
            from <= i <= input@.len(),
            field_end(input@.skip(from as int), sep) == (i - from) + field_end(
                input@.skip(i as int),
                sep,
            ),
        decreases input@.len() - i,
    {
        assert(input@.skip(i as int).drop_first() =~= input@.skip(i + 1));
        i = i + 1;
    }
    i
}

/// The fields of `s` between separators. A text without a separator is
/// one field, and so is the empty text.
pub open spec fn split_fields(s: Seq<char>, sep: char) -> Seq<Seq<char>>
    decreases s.len(),
{
    let end = field_end(s, sep);
    if 0 <= end < s.len() {
        seq![s.take(end)] + split_fields(s.skip(end + 1), sep)
    } else {
        seq![s]
    }
}

/// The characters of each text, in order.
pub open spec fn texts_view(texts: Seq<String>) -> Seq<Seq<char>> {
    Seq::new(texts.len(), |i: int| texts[i]@)
}

/// The characters of `input` from `from` up to `to`, as a string.
pub fn text_in(input: &Vec<char>, from: usize, to: usize) -> (out: String)
    requires
        from <= to <= input@.len(),
    ensures
        out@ == input@.subrange(from as int, to as int),
{
    let mut part: Vec<char> = Vec::new();
    let mut i: usize = from;
    while i < to
        invariant
            from <= i <= to <= input@.len(),
            part@ == input@.subrange(from as int, i as int),
        decreases to - i,
    {
        part.push(input[i]);
        i = i + 1;
        assert(input@.subrange(from as int, i as int) =~= input@.subrange(
            from as int,
            i - 1,
        ).push(input@[i - 1]));
    }
    string_of(&part)
}

/// Splits a text at each separator.
pub fn split_text(text: &str, sep: char) -> (fields: Vec<String>)
    ensures
        texts_view(fields@) == split_fields(text@, sep),
{
    let input = chars_of(text);
    let mut fields: Vec<String> = Vec::new();
    let mut pos: usize = 0;
    assert(input@.skip(0) =~= input@);
    assert(texts_view(fields@) =~= Seq::<Seq<char>>::empty());
    loop
        invariant
            pos <= input@.len(),
            input@ == text@,
            texts_view(fields@) + split_fields(input@.skip(pos as int), sep) == split_fields(
                text@,
                sep,
            ),
        decreases input@.len() - pos,
    {
        let ghost here = input@.skip(pos as int);
        let ghost before = texts_view(fields@);
        let end = find_field_end(&input, pos, sep);
        let field = text_in(&input, pos, end);
        proof {
            assert(here.take(end - pos) =~= input@.subrange(pos as int, end as int));
            lemma_field_end_bounds(here, sep);
        }
        fields.push(field);
        if end >= input.len() {
            proof {
                assert(here.take(end - pos) =~= here);
                assert(texts_view(fields@) =~= before + seq![here]);
            }
            return fields;
        }
        proof {
            assert(here.skip(end - pos + 1) =~= input@.skip(end + 1));
            assert(texts_view(fields@) =~= before + seq![here.take(end - pos)]);
            assert(texts_view(fields@) + split_fields(input@.skip(end + 1), sep) =~= before + (
            seq![here.take(end - pos)] + split_fields(input@.skip(end + 1), sep)));
        }
        pos = end + 1;
    }
}

/// Whether `text` is among the texts.
pub fn holds_text(texts: &Vec<String>, text: &str) -> (r: bool)
    ensures
        r == texts_view(texts@).contains(text@),
{
    let ghost views = texts_view(texts@);
    let mut i: usize = 0;
    while i < texts.len()
        invariant
            i <= texts@.len(),
            views == texts_view(texts@),
            forall|j: int| 0 <= j < i ==> views[j] != text@,
        decreases texts@.len() - i,
    {
        if same_text(texts[i].as_str(), text) {
            assert(views[i as int] == text@);
            return true;
        }
        i = i + 1;
    }
    false
}

/// The texts of `present` that are not among `kept`, in their order.
pub open spec fn not_among(present: Seq<Seq<char>>, kept: Seq<Seq<char>>) -> Seq<Seq<char>>
    decreases present.len(),
{
    if present.len() == 0 {
        Seq::empty()
    } else if kept.contains(present.last()) {
        not_among(present.drop_last(), kept)
    } else {
        not_among(present.drop_last(), kept).push(present.last())
    }
}

/// Picks the texts of `present` that are not among `kept`.
pub fn texts_not_among(present: &Vec<String>, kept: &Vec<String>) -> (r: Vec<String>)
    ensures
        texts_view(r@) == not_among(texts_view(present@), texts_view(kept@)),
{
    let ghost views = texts_view(present@);
    let mut out: Vec<String> = Vec::new();
    let mut i: usize = 0;
    assert(views.take(0) =~= Seq::<Seq<char>>::empty());
    assert(texts_view(out@) =~= Seq::<Seq<char>>::empty());
    while i < present.len()
        invariant
            i <= present@.len(),
            views == texts_view(present@),
            texts_view(out@) == not_among(views.take(i as int), texts_view(kept@)),
        decreases present@.len() - i,
    {
        let ghost before = texts_view(out@);
        proof {
            assert(views.take(i + 1).drop_last() =~= views.take(i as int));
            assert(views.take(i + 1).last() == present@[i as int]@);
        }
        if !holds_text(kept, present[i].as_str()) {
            out.push(present[i].clone());
            assert(texts_view(out@) =~= before.push(present@[i as int]@));
        }
        i = i + 1;
    }
    assert(views.take(i as int) =~= views);
    out
}

/// One line of a document: a label, a colon and a space, a value, and the
/// end of the line.
pub open spec fn field_line(label: Seq<char>, value: Seq<char>) -> Seq<char> {
    label + seq![':', ' '] + value + seq!['\n']
}

/// The value of the line that stands at the front of `s` under `label`,
/// and what follows the line; nothing where `s` does not begin with such a
/// line.
pub open spec fn field_at(s: Seq<char>, label: Seq<char>) -> Option<(Seq<char>, Seq<char>)> {
    let lead = label + seq![':', ' '];
    if !starts_with(s, lead) {
        None
    } else {
        let body = s.skip(lead.len() as int);
        let end = field_end(body, '\n');
        if end >= body.len() {
            None
        } else {
            Some((body.take(end), body.skip(end + 1)))
        }
    }
}

/// A line is read back as its value, with what follows it left over.
pub proof fn lemma_field_at(label: Seq<char>, value: Seq<char>, rest: Seq<char>)
    requires
        free_of(value, '\n'),
    ensures
        field_at(field_line(label, value) + rest, label) == Some((value, rest)),
{
    let lead = label + seq![':', ' '];
    let s = field_line(label, value) + rest;
    assert(s =~= lead + (value + seq!['\n'] + rest));
    lemma_starts_with(lead, value + seq!['\n'] + rest);
    let body = s.skip(lead.len() as int);
    assert(body =~= value + seq!['\n'] + rest);
    lemma_field_end_found(value, '\n', rest);
    assert(body.take(value.len() as int) =~= value);
    assert(body.skip(value.len() as int + 1) =~= rest);
}

/// Digits hold no other character.
pub proof fn lemma_digits_free_of(s: Seq<char>, sep: char)
    requires
        all_digits(s),
        !is_digit(sep),
    ensures
        free_of(s, sep),
{
    assert forall|i: int| 0 <= i < s.len() implies #[trigger] s[i] != sep by {
        assert(is_digit(s[i]));
    }
}

/// Hexadecimal digits hold no other character.
pub proof fn lemma_hex_free_of(s: Seq<char>, sep: char)
    requires
        all_hex(s),
        hex_value(sep) == 16,
    ensures
        free_of(s, sep),
{
    assert forall|i: int| 0 <= i < s.len() implies #[trigger] s[i] != sep by {
        assert(hex_value(s[i]) < 16);
    }
}

/// Appends the line of `label` and `value` to `out`.
pub fn push_field(out: &mut Vec<char>, label: &str, value: &Vec<char>)
    ensures
        final(out)@ == old(out)@ + field_line(label@, value@),
{
    push_text(out, label);
    out.push(':');
    out.push(' ');
    push_chars(out, value);
    out.push('\n');
    assert(out@ =~= old(out)@ + field_line(label@, value@));
}

/// Finds the value of the line that stands at `pos` under `label`: where
/// the value starts, where it ends, and where the next line starts.
pub fn read_field(input: &Vec<char>, pos: usize, label: &str) -> (r: Option<(usize, usize, usize)>)
    requires
        pos <= input@.len(),
    ensures
        match r {
            Some((from, to, next)) => pos <= from <= to < input@.len() && next == to + 1 && field_at(
                input@.skip(pos as int),
                label@,
            ) == Some((input@.subrange(from as int, to as int), input@.skip(to + 1))),
            None => field_at(input@.skip(pos as int), label@) is None,
        },
{
    let mut lead = chars_of(label);
    lead.push(':');
    lead.push(' ');
    assert(lead@ =~= label@ + seq![':', ' ']);
    if !holds_at(input, pos, &lead) {
        return None;
    }
    let total = input.len();
    assert(input@.skip(pos as int).len() == total - pos);
    assert(pos + lead@.len() <= total);
    let from = pos + lead.len();
    let to = find_field_end(input, from, '\n');
    proof {
        let body = input@.skip(pos as int).skip(lead@.len() as int);
        assert(body =~= input@.skip(from as int));
        assert(body.take(to - from) =~= input@.subrange(from as int, to as int));
        if to < input@.len() {
            assert(body.skip(to - from + 1) =~= input@.skip(to + 1));
        }
    }
    if to >= input.len() {
        return None;
    }
    Some((from, to, to + 1))
}

// ------------------------------------------------------------------
// Lines that hold numbers and bytes

/// A 32-bit number read from its decimal form.
pub open spec fn parse_u32(s: Seq<char>) -> Option<u32> {
    match parse_u64(s) {
        Some(n) => if n <= u32::MAX {
            Some(n as u32)
        } else {
            None
        },
        None => None,
    }
}

/// The hexadecimal value of the line under `label` at the front of `s`,
/// and what follows the line.
pub open spec fn hex_field_at(s: Seq<char>, label: Seq<char>) -> Option<(Seq<u8>, Seq<char>)> {
    match field_at(s, label) {
        Some((value, rest)) => match parse_hex(value) {
            Some(bytes) => Some((bytes, rest)),
            None => None,
        },
        None => None,
    }
}

/// The 32-bit number of the line under `label` at the front of `s`, and
/// what follows the line.
pub open spec fn u32_field_at(s: Seq<char>, label: Seq<char>) -> Option<(u32, Seq<char>)> {
    match field_at(s, label) {
        Some((value, rest)) => match parse_u32(value) {
            Some(n) => Some((n, rest)),
            None => None,
        },
        None => None,
    }
}

/// A line of hexadecimal bytes is read back as those bytes.
pub proof fn lemma_hex_field_at(label: Seq<char>, bytes: Seq<u8>, rest: Seq<char>)
    ensures
        hex_field_at(field_line(label, hex_text(bytes)) + rest, label) == Some((bytes, rest)),
{
    lemma_hex_round_trip(bytes);
    lemma_hex_free_of(hex_text(bytes), '\n');
    lemma_field_at(label, hex_text(bytes), rest);
}

/// A line that holds a 32-bit number is read back as that number.
pub proof fn lemma_u32_field_at(label: Seq<char>, n: u32, rest: Seq<char>)
    ensures
        u32_field_at(field_line(label, decimal_text(n as nat)) + rest, label) == Some((n, rest)),
{
    lemma_decimal_round_trip(n as nat);
    lemma_digits_free_of(decimal_text(n as nat), '\n');
    lemma_field_at(label, decimal_text(n as nat), rest);
}

/// Appends a line of hexadecimal bytes to `out`.
pub fn write_hex_field(out: &mut Vec<char>, label: &str, bytes: &[u8])
    ensures
        final(out)@ == old(out)@ + field_line(label@, hex_text(bytes@)),
{
    let mut value: Vec<char> = Vec::new();
    push_hex(&mut value, bytes);
    assert(value@ =~= hex_text(bytes@));
    push_field(out, label, &value);
}

/// Reads a line of hexadecimal bytes at `pos`: the bytes, and where the
/// next line starts.
pub fn read_hex_field(input: &Vec<char>, pos: usize, label: &str) -> (r: Option<(Vec<u8>, usize)>)
    requires
        pos <= input@.len(),
    ensures
        match r {
            Some((bytes, next)) => pos <= next <= input@.len() && hex_field_at(
                input@.skip(pos as int),
                label@,
            ) == Some((bytes@, input@.skip(next as int))),
            None => hex_field_at(input@.skip(pos as int), label@) is None,
        },
{
    match read_field(input, pos, label) {
        None => None,
        Some((from, to, next)) => match hex_in(input, from, to) {
            None => None,
            Some(bytes) => Some((bytes, next)),
        },
    }
}

/// Reads a line that holds a 32-bit decimal number at `pos`.
pub fn read_u32_field(input: &Vec<char>, pos: usize, label: &str) -> (r: Option<(u32, usize)>)
    requires
        pos <= input@.len(),
    ensures
        match r {
            Some((n, next)) => pos <= next <= input@.len() && u32_field_at(
                input@.skip(pos as int),
                label@,
            ) == Some((n, input@.skip(next as int))),
            None => u32_field_at(input@.skip(pos as int), label@) is None,
        },
{
    match read_field(input, pos, label) {
        None => None,
        Some((from, to, next)) => match decimal_in(input, from, to) {
            None => None,
            Some(n) => if n <= u32::MAX as u64 {
                Some((n as u32, next))
            } else {
                None
            },
        },
    }
}

/// A text with its length ahead of it: a line that holds the number of
/// characters, the characters themselves, whatever they are, and the end
/// of a line.
pub open spec fn counted_text(label: Seq<char>, text: Seq<char>) -> Seq<char> {
    field_line(label, decimal_text(text.len())) + text + seq!['\n']
}

/// The counted text under `label` at the front of `s`, and what follows
/// it.
pub open spec fn counted_at(s: Seq<char>, label: Seq<char>) -> Option<(Seq<char>, Seq<char>)> {
    match field_at(s, label) {
        None => None,
        Some((value, rest)) => match parse_u64(value) {
            None => None,
            Some(n) => if n < rest.len() && rest[n as int] == '\n' {
                Some((rest.take(n as int), rest.skip(n + 1)))
            } else {
                None
            },
        },
    }
}

/// A counted text is read back as it was written.
pub proof fn lemma_counted_at(label: Seq<char>, text: Seq<char>, rest: Seq<char>)
    requires
        text.len() <= u64::MAX,
    ensures
        counted_at(counted_text(label, text) + rest, label) == Some((text, rest)),
{
    let n = text.len();
    let tail = text + seq!['\n'] + rest;
    lemma_decimal_round_trip(n);
    lemma_digits_free_of(decimal_text(n), '\n');
    assert(counted_text(label, text) + rest =~= field_line(label, decimal_text(n)) + tail);
    lemma_field_at(label, decimal_text(n), tail);
    assert(tail[n as int] == '\n');
    assert(tail.take(n as int) =~= text);
    assert(tail.skip(n as int + 1) =~= rest);
}

/// Appends a counted text to `out`.
pub fn write_counted(out: &mut Vec<char>, label: &str, text: &str)
    ensures
        final(out)@ == old(out)@ + counted_text(label@, text@),
        text@.len() <= u64::MAX,
{
    let chars = chars_of(text);
    let mut count: Vec<char> = Vec::new();
    push_decimal(&mut count, chars.len() as u64);
    assert(count@ =~= decimal_text(text@.len()));
    push_field(out, label, &count);
    push_chars(out, &chars);
    out.push('\n');
    assert(out@ =~= old(out)@ + counted_text(label@, text@));
}

/// Reads a counted text at `pos`: the text, and where the next line
/// starts.
pub fn read_counted(input: &Vec<char>, pos: usize, label: &str) -> (r: Option<(String, usize)>)
    requires
        pos <= input@.len(),
    ensures
        match r {
            Some((text, next)) => pos <= next <= input@.len() && counted_at(
                input@.skip(pos as int),
                label@,
            ) == Some((text@, input@.skip(next as int))),
            None => counted_at(input@.skip(pos as int), label@) is None,
        },
{
    let (from, to, start) = match read_field(input, pos, label) {
        None => {
            return None;
        },
        Some(found) => found,
    };
    let n = match decimal_in(input, from, to) {
        None => {
            return None;
        },
        Some(n) => n,
    };
    let total = input.len();
    let ghost rest = input@.skip(start as int);
    assert(rest.len() == total - start);
    if n >= (total - start) as u64 {
        return None;
    }
    let end = start + n as usize;
    assert(rest[n as int] == input@[end as int]);
    if input[end] != '\n' {
        return None;
    }
    let text = text_in(input, start, end);
    proof {
        assert(rest.take(n as int) =~= input@.subrange(start as int, end as int));
        assert(rest.skip(n + 1) =~= input@.skip(end + 1));
    }
    Some((text, end + 1))
}

// ------------------------------------------------------------------
// Decimal numbers

/// The character for a decimal digit.
pub open spec fn digit_char(d: int) -> char {
    if d == 0 {
        '0'
    } else if d == 1 {
        '1'
    } else if d == 2 {
        '2'
    } else if d == 3 {
        '3'
    } else if d == 4 {
        '4'
    } else if d == 5 {
        '5'
    } else if d == 6 {
        '6'
    } else if d == 7 {
        '7'
    } else if d == 8 {
        '8'
    } else {
        '9'
    }
}

/// The value of a decimal digit, or ten for any other character.
pub open spec fn digit_value(c: char) -> int {
    if c == '0' {
        0
    } else if c == '1' {
        1
    } else if c == '2' {
        2
    } else if c == '3' {
        3
    } else if c == '4' {
        4
    } else if c == '5' {
        5
    } else if c == '6' {
        6
    } else if c == '7' {
        7
    } else if c == '8' {
        8
    } else if c == '9' {
        9
    } else {
        10
    }
}

/// Whether `c` is a decimal digit.
pub open spec fn is_digit(c: char) -> bool {
    digit_value(c) < 10
}

/// Whether every character of `s` is a decimal digit.
pub open spec fn all_digits(s: Seq<char>) -> bool {
    forall|i: int| 0 <= i < s.len() ==> is_digit(#[trigger] s[i])
}

/// The decimal form of `n`, without leading zeros.
pub open spec fn decimal_text(n: nat) -> Seq<char>
    decreases n,
{
    if n < 10 {
        seq![digit_char(n as int)]
    } else {
        decimal_text(n / 10).push(digit_char((n % 10) as int))
    }
}

/// The number that a run of digits denotes.
pub open spec fn digits_value(s: Seq<char>) -> nat
    decreases s.len(),
{
    if s.len() == 0 {
        0
    } else {
        (digits_value(s.drop_last()) * 10 + digit_value(s.last())) as nat
    }
}

/// The number that `s` is the decimal form of, if it is one: digits only,
/// at least one, and no zero in front of another digit.
pub open spec fn parse_decimal(s: Seq<char>) -> Option<nat> {
    if s.len() == 0 || !all_digits(s) || (s.len() > 1 && s[0] == '0') {
        None
    } else {
        Some(digits_value(s))
    }
}

/// The 64-bit number that `s` is the decimal form of, if it is one.
pub open spec fn parse_u64(s: Seq<char>) -> Option<u64> {
    match parse_decimal(s) {
        Some(n) => if n <= u64::MAX {
            Some(n as u64)
        } else {
            None
        },
        None => None,
    }
}

/// The decimal form of a number reads back as that number.
pub proof fn lemma_decimal_round_trip(n: nat)
    ensures
        decimal_text(n).len() >= 1,
        all_digits(decimal_text(n)),
        n >= 1 ==> decimal_text(n)[0] != '0',
        n < 10 <==> decimal_text(n).len() == 1,
        digits_value(decimal_text(n)) == n,
        parse_decimal(decimal_text(n)) == Some(n),
    decreases n,
{
    if n < 10 {
        let s = decimal_text(n);
        assert(s.drop_last() =~= Seq::<char>::empty());
        assert(digits_value(s.drop_last()) == 0);
    } else {
        let front = decimal_text(n / 10);
        lemma_decimal_round_trip(n / 10);
        let s = front.push(digit_char((n % 10) as int));
        assert(s.drop_last() =~= front);
        assert(s[0] == front[0]);
    }
}

/// A run of digits is worth at least as much as any of its beginnings.
pub proof fn lemma_digits_value_grows(s: Seq<char>, i: int)
    requires
        0 <= i <= s.len(),
        all_digits(s),
    ensures
        digits_value(s.take(i)) <= digits_value(s),
    decreases s.len() - i,
{
    if i < s.len() {
        lemma_digits_value_grows(s, i + 1);
        assert(s.take(i + 1).drop_last() =~= s.take(i));
        assert(s.take(i + 1).last() == s[i]);
    } else {
        assert(s.take(i) =~= s);
    }
}

/// The value of a decimal digit.
pub fn digit_of(c: char) -> (d: Option<u8>)
    ensures
        match d {
            Some(v) => is_digit(c) && v == digit_value(c),
            None => !is_digit(c),
        },
{
    if c == '0' {
        Some(0)
    } else if c == '1' {
        Some(1)
    } else if c == '2' {
        Some(2)
    } else if c == '3' {
        Some(3)
    } else if c == '4' {
        Some(4)
    } else if c == '5' {
        Some(5)
    } else if c == '6' {
        Some(6)
    } else if c == '7' {
        Some(7)
    } else if c == '8' {
        Some(8)
    } else if c == '9' {
        Some(9)
    } else {
        None
    }
}

/// The character for a value below sixteen, as a lower-case hexadecimal
/// digit.
pub fn nibble_char(d: u8) -> (c: char)
    requires
        d < 16,
    ensures
        c == hex_char(d as int),
        d < 10 ==> c == digit_char(d as int),
{
    if d == 0 {
        '0'
    } else if d == 1 {
        '1'
    } else if d == 2 {
        '2'
    } else if d == 3 {
        '3'
    } else if d == 4 {
        '4'
    } else if d == 5 {
        '5'
    } else if d == 6 {
        '6'
    } else if d == 7 {
        '7'
    } else if d == 8 {
        '8'
    } else if d == 9 {
        '9'
    } else if d == 10 {
        'a'
    } else if d == 11 {
        'b'
    } else if d == 12 {
        'c'
    } else if d == 13 {
        'd'
    } else if d == 14 {
        'e'
    } else {
        'f'
    }
}

/// Reads the characters from `from` up to `to` as a decimal number.
pub fn decimal_in(input: &Vec<char>, from: usize, to: usize) -> (r: Option<u64>)
    requires
        from <= to <= input@.len(),
    ensures
        r == parse_u64(input@.subrange(from as int, to as int)),
{
    let ghost s = input@.subrange(from as int, to as int);
    if from == to {
        return None;
    }
    if to - from > 1 && input[from] == '0' {
        assert(s[0] == '0');
        return None;
    }
    let mut value: u64 = 0;
    let mut i: usize = from;
    assert(s.take(0) =~= Seq::<char>::empty());
    while i < to
        invariant
            from <= i <= to <= input@.len(),
            s == input@.subrange(from as int, to as int),
            all_digits(s.take(i - from)),
            value == digits_value(s.take(i - from)),
        decreases to - i,
    {
        let ghost k = i - from;
        proof {
            assert(s.take(k + 1).drop_last() =~= s.take(k));
            assert(s.take(k + 1).last() == s[k]);
            assert(s[k] == input@[i as int]);
        }
        match digit_of(input[i]) {
            None => {
                assert(!is_digit(s[k]));
                return None;
            },
            Some(d) => {
                assert forall|j: int| 0 <= j < k + 1 implies is_digit(
                    #[trigger] s.take(k + 1)[j],
                ) by {
                    if j < k {
                        assert(s.take(k + 1)[j] == s.take(k)[j]);
                    }
                }
                if value > (u64::MAX - d as u64) / 10 {
                    proof {
                        if all_digits(s) {
                            lemma_digits_value_grows(s, k + 1);
                        }
                    }
                    return None;
                }
                value = value * 10 + d as u64;
            },
        }
        i = i + 1;
    }
    assert(s.take(to - from) =~= s);
    Some(value)
}

/// Appends the decimal form of `n` to `out`.
pub fn push_decimal(out: &mut Vec<char>, n: u64)
    ensures
        final(out)@ == old(out)@ + decimal_text(n as nat),
    decreases n,
{
    if n < 10 {
        out.push(nibble_char(n as u8));
        assert(out@ =~= old(out)@ + decimal_text(n as nat));
    } else {
        push_decimal(out, n / 10);
        out.push(nibble_char((n % 10) as u8));
        assert(out@ =~= old(out)@ + decimal_text(n as nat));
    }
}

// ------------------------------------------------------------------
// Hexadecimal bytes

/// The lower-case hexadecimal digit for a value below sixteen.
pub open spec fn hex_char(d: int) -> char {
    if d < 10 {
        digit_char(d)
    } else if d == 10 {
        'a'
    } else if d == 11 {
        'b'
    } else if d == 12 {
        'c'
    } else if d == 13 {
        'd'
    } else if d == 14 {
        'e'
    } else {
        'f'
    }
}

/// The value of a lower-case hexadecimal digit, or sixteen for any other
/// character.
pub open spec fn hex_value(c: char) -> int {
    if is_digit(c) {
        digit_value(c)
    } else if c == 'a' {
        10
    } else if c == 'b' {
        11
    } else if c == 'c' {
        12
    } else if c == 'd' {
        13
    } else if c == 'e' {
        14
    } else if c == 'f' {
        15
    } else {
        16
    }
}

/// Whether every character of `s` is a lower-case hexadecimal digit.
pub open spec fn all_hex(s: Seq<char>) -> bool {
    forall|i: int| 0 <= i < s.len() ==> hex_value(#[trigger] s[i]) < 16
}

/// The bytes as lower-case hexadecimal digits, two for each byte, the high
/// half first.
pub open spec fn hex_text(bytes: Seq<u8>) -> Seq<char> {
    Seq::new(
        2 * bytes.len(),
        |i: int|
            if i % 2 == 0 {
                hex_char(bytes[i / 2] as int / 16)
            } else {
                hex_char(bytes[i / 2] as int % 16)
            },
    )
}

/// The bytes that `s` is the hexadecimal form of, if it is one.
pub open spec fn parse_hex(s: Seq<char>) -> Option<Seq<u8>> {
    if s.len() % 2 != 0 || !all_hex(s) {
        None
    } else {
        Some(
            Seq::new(
                (s.len() / 2) as nat,
                |k: int| (hex_value(s[2 * k]) * 16 + hex_value(s[2 * k + 1])) as u8,
            ),
        )
    }
}

/// The hexadecimal form of bytes reads back as those bytes, and holds
/// hexadecimal digits only.
pub proof fn lemma_hex_round_trip(bytes: Seq<u8>)
    ensures
        all_hex(hex_text(bytes)),
        hex_text(bytes).len() == 2 * bytes.len(),
        parse_hex(hex_text(bytes)) == Some(bytes),
{
    let s = hex_text(bytes);
    assert forall|i: int| 0 <= i < s.len() implies hex_value(#[trigger] s[i]) < 16 by {
        let b = bytes[i / 2] as int;
        assert(0 <= b / 16 < 16 && 0 <= b % 16 < 16);
    }
    let back = parse_hex(s)->0;
    assert forall|k: int| 0 <= k < bytes.len() implies back[k] == bytes[k] by {
        let b = bytes[k] as int;
        assert(0 <= b / 16 < 16 && 0 <= b % 16 < 16);
        assert((2 * k) % 2 == 0 && (2 * k) / 2 == k);
        assert((2 * k + 1) % 2 == 1 && (2 * k + 1) / 2 == k);
        assert(hex_value(hex_char(b / 16)) == b / 16);
        assert(hex_value(hex_char(b % 16)) == b % 16);
        assert(s[2 * k] == hex_char(b / 16));
        assert(s[2 * k + 1] == hex_char(b % 16));
    }
    assert(back =~= bytes);
}

/// The value of a lower-case hexadecimal digit.
pub fn nibble_of(c: char) -> (d: Option<u8>)
    ensures
        match d {
            Some(v) => v == hex_value(c) && v < 16,
            None => hex_value(c) == 16,
        },
{
    match digit_of(c) {
        Some(v) => Some(v),
        None => {
            if c == 'a' {
                Some(10)
            } else if c == 'b' {
                Some(11)
            } else if c == 'c' {
                Some(12)
            } else if c == 'd' {
                Some(13)
            } else if c == 'e' {
                Some(14)
            } else if c == 'f' {
                Some(15)
            } else {
                None
            }
        },
    }
}

/// Appends the hexadecimal form of `bytes` to `out`.
pub fn push_hex(out: &mut Vec<char>, bytes: &[u8])
    ensures
        final(out)@ == old(out)@ + hex_text(bytes@),
{
    let mut i: usize = 0;
    assert(hex_text(bytes@.take(0)) =~= Seq::<char>::empty());
    while i < bytes.len()
        invariant
            i <= bytes@.len(),
            out@ == old(out)@ + hex_text(bytes@.take(i as int)),
        decreases bytes@.len() - i,
    {
        let b = bytes[i];
        out.push(nibble_char(b / 16));
        out.push(nibble_char(b % 16));
        i = i + 1;
        assert(hex_text(bytes@.take(i as int)) =~= hex_text(bytes@.take(i - 1)).push(
            hex_char(b as int / 16),
        ).push(hex_char(b as int % 16)));
    }
    assert(bytes@.take(i as int) =~= bytes@);
}

/// Reads the characters from `from` up to `to` as hexadecimal bytes.
pub fn hex_in(input: &Vec<char>, from: usize, to: usize) -> (r: Option<Vec<u8>>)
    requires
        from <= to <= input@.len(),
    ensures
        match r {
            Some(bytes) => parse_hex(input@.subrange(from as int, to as int)) == Some(bytes@),
            None => parse_hex(input@.subrange(from as int, to as int)) is None,
        },
{
    let ghost s = input@.subrange(from as int, to as int);
    if (to - from) % 2 != 0 {
        return None;
    }
    let mut bytes: Vec<u8> = Vec::new();
    let mut i: usize = from;
    while i < to
        invariant
            from <= i <= to <= input@.len(),
            (to - from) % 2 == 0,
            (i - from) % 2 == 0,
            s == input@.subrange(from as int, to as int),
            bytes@.len() == (i - from) / 2,
            forall|j: int| 0 <= j < i - from ==> hex_value(#[trigger] s[j]) < 16,
            forall|k: int|
                0 <= k < bytes@.len() ==> #[trigger] bytes@[k] == (hex_value(s[2 * k]) * 16
                    + hex_value(s[2 * k + 1])) as u8,
        decreases to - i,
    {
        let ghost k = (i - from) / 2;
        assert(s[2 * k] == input@[i as int]);
        assert(s[2 * k + 1] == input@[i + 1]);
        let high = nibble_of(input[i]);
        let low = nibble_of(input[i + 1]);
        match (high, low) {
            (Some(h), Some(l)) => {
                bytes.push(h * 16 + l);
            },
            _ => {
                assert(!all_hex(s));
                return None;
            },
        }
        i = i + 2;
    }
    assert(all_hex(s));
    assert(bytes@ =~= parse_hex(s)->0);
    Some(bytes)
}

} // verus!
