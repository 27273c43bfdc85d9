//! Text as sequences of characters: sizes in bytes, blanks, case, search, decimal
//! numbers and joining, each with the executable function that computes it.
use vstd::prelude::*;
use vstd::string::*;
use vstd::utf8::*;

verus! {

/// `String::push` of std: appends one character at the end of the string.
pub assume_specification[ String::push ](string: &mut String, ch: char)
    ensures
        final(string)@ == old(string)@.push(ch),
;

/// The characters of every string of `parts`, in order.
pub open spec fn texts(parts: Seq<String>) -> Seq<Seq<char>> {
    parts.map_values(|part: String| part@)
}

/// The characters of an optional string.
pub open spec fn opt_text(value: Option<String>) -> Option<Seq<char>> {
    match value {
        Some(text) => Some(text@),
        None => None,
    }
}

// ---------------------------------------------------------------- sizes in bytes

/// Bytes that the UTF-8 encoding of one character takes.
pub open spec fn char_bytes(c: char) -> nat {
    if (c as u32) < 0x80 {
        1
    } else if (c as u32) < 0x800 {
        2
    } else if (c as u32) < 0x10000 {
        3
    } else {
        4
    }
}

/// Bytes that the UTF-8 encoding of a text takes.
pub open spec fn byte_len(s: Seq<char>) -> nat {
    encode_utf8(s).len()
}

pub proof fn lemma_byte_len_add(a: Seq<char>, b: Seq<char>)
    ensures
        byte_len(a + b) == byte_len(a) + byte_len(b),
        encode_utf8(a + b) == encode_utf8(a) + encode_utf8(b),
    decreases a.len(),
{
    if a.len() == 0 {
        assert(a + b =~= b);
        assert(encode_utf8(a) =~= Seq::<u8>::empty());
        assert(encode_utf8(a) + encode_utf8(b) =~= encode_utf8(b));
    } else {
        assert((a + b).drop_first() =~= a.drop_first() + b);
        lemma_byte_len_add(a.drop_first(), b);
        assert(encode_utf8(a + b) =~= encode_utf8(a) + encode_utf8(b));
    }
}

pub proof fn lemma_byte_len_single(c: char)
    ensures
        byte_len(seq![c]) == char_bytes(c),
        1 <= char_bytes(c) <= 4,
{
    let s = seq![c];
    assert(s.drop_first() =~= Seq::<char>::empty());
    reveal_with_fuel(encode_utf8, 2);
    char_is_scalar(c);
}

pub proof fn lemma_byte_len_push(s: Seq<char>, c: char)
    ensures
        byte_len(s.push(c)) == byte_len(s) + char_bytes(c),
{
    assert(s.push(c) =~= s + seq![c]);
    lemma_byte_len_add(s, seq![c]);
    lemma_byte_len_single(c);
}

/// A text takes at least one byte and at most four bytes for each character.
pub proof fn lemma_byte_len_bounds(s: Seq<char>)
    ensures
        s.len() <= byte_len(s) <= 4 * s.len(),
    decreases s.len(),
{
    if s.len() > 0 {
        assert(s =~= s.drop_last().push(s.last()));
        lemma_byte_len_push(s.drop_last(), s.last());
        lemma_byte_len_single(s.last());
        lemma_byte_len_bounds(s.drop_last());
    }
}

/// The size of `text` in bytes.
pub fn byte_len_of(text: &str) -> (size: usize)
    ensures
        size == byte_len(text@),
{
    text.as_bytes().len()
}

/// The size of one character in bytes.
pub fn char_bytes_of(c: char) -> (size: usize)
    ensures
        size == char_bytes(c),
{
    let code: u32 = c as u32;
    if code < 0x80 {
        1
    } else if code < 0x800 {
        2
    } else if code < 0x10000 {
        3
    } else {
        4
    }
}

// ---------------------------------------------------------------- conversion

/// Whether two texts hold the same characters.
pub fn same_text(left: &str, right: &str) -> (same: bool)
    ensures
        same == (left@ == right@),
{
    let a: &[u8] = left.as_bytes();
    let b: &[u8] = right.as_bytes();
    proof {
        encode_utf8_decode_utf8(left@);
        encode_utf8_decode_utf8(right@);
    }
    if a.len() != b.len() {
        return false;
    }
    let mut i: usize = 0;
    while i < a.len()
        invariant
            i <= a.len(),
            a.len() == b.len(),
            a@ == encode_utf8(left@),
            b@ == encode_utf8(right@),
            forall|k: int| 0 <= k < i ==> a@[k] == b@[k],
        decreases a.len() - i,
    {
        if a[i] != b[i] {
            return false;
        }
        i += 1;
    }
    assert(a@ =~= b@);
    true
}

/// The characters of `text` as a vector.
pub fn to_chars(text: &str) -> (chars: Vec<char>)
    ensures
        chars@ == text@,
{
    let mut chars: Vec<char> = Vec::new();
    for c in it: text.chars()
        invariant
            chars@ == it.seq().take(it.index()),
            it.seq() == text@,
    {
        chars.push(c);
    }
    chars
}

/// The text made of the characters of `chars` from `from` up to `to`.
pub fn from_chars(chars: &Vec<char>, from: usize, to: usize) -> (text: String)
    requires
        from <= to <= chars.len(),
    ensures
        text@ == chars@.subrange(from as int, to as int),
{
    let mut text = String::new();
    let mut i: usize = from;
    while i < to
        invariant
            from <= i <= to <= chars.len(),
            text@ == chars@.subrange(from as int, i as int),
        decreases to - i,
    {
        text.push(chars[i]);
        i += 1;
        assert(text@ =~= chars@.subrange(from as int, i as int));
    }
    text
}

/// A copy of an optional text.
pub fn clone_opt(value: &Option<String>) -> (copy: Option<String>)
    ensures
        copy == *value,
{
    match value {
        Some(text) => Some(text.clone()),
        None => None,
    }
}

/// A copy of a list of texts.
pub fn clone_texts(values: &Vec<String>) -> (copy: Vec<String>)
    ensures
        copy@ == values@,
{
    let mut copy: Vec<String> = Vec::new();
    let mut i: usize = 0;
    while i < values.len()
        invariant
            i <= values.len(),
            copy@ == values@.take(i as int),
        decreases values.len() - i,
    {
        copy.push(values[i].clone());
        i += 1;
        assert(copy@ =~= values@.take(i as int));
    }
    assert(values@.take(i as int) =~= values@);
    copy
}

// ---------------------------------------------------------------- blanks and case

/// The characters with the Unicode property White_Space.
pub open spec fn is_space(c: char) -> bool {
    let code = c as u32;
    ||| 0x09 <= code <= 0x0D
    ||| code == 0x20
    ||| code == 0x85
    ||| code == 0xA0
    ||| code == 0x1680
    ||| 0x2000 <= code <= 0x200A
    ||| code == 0x2028
    ||| code == 0x2029
    ||| code == 0x202F
    ||| code == 0x205F
    ||| code == 0x3000
}

pub fn is_space_char(c: char) -> (space: bool)
    ensures
        space == is_space(c),
{
    let code: u32 = c as u32;
    (0x09 <= code && code <= 0x0D) || code == 0x20 || code == 0x85 || code == 0xA0 || code == 0x1680
        || (0x2000 <= code && code <= 0x200A) || code == 0x2028 || code == 0x2029 || code == 0x202F
        || code == 0x205F || code == 0x3000
}

/// A text of white space only, the empty text among them.
pub open spec fn blank(s: Seq<char>) -> bool {
    forall|i: int| 0 <= i < s.len() ==> is_space(#[trigger] s[i])
}

/// The text without its leading white space.
pub open spec fn trim_start(s: Seq<char>) -> Seq<char>
    decreases s.len(),
{
    if s.len() > 0 && is_space(s[0]) {
        trim_start(s.drop_first())
    } else {
        s
    }
}

/// The text without its trailing white space.
pub open spec fn trim_end(s: Seq<char>) -> Seq<char>
    decreases s.len(),
{
    if s.len() > 0 && is_space(s.last()) {
        trim_end(s.drop_last())
    } else {
        s
    }
}

/// The text without the white space around it.
pub open spec fn trim(s: Seq<char>) -> Seq<char> {
    trim_end(trim_start(s))
}

pub fn is_blank(text: &str) -> (empty: bool)
    ensures
        empty == blank(text@),
{
    let chars = to_chars(text);
    let mut i: usize = 0;
    while i < chars.len()
        invariant
            i <= chars.len(),
            chars@ == text@,
            forall|k: int| 0 <= k < i ==> is_space(#[trigger] chars@[k]),
        decreases chars.len() - i,
    {
        if !is_space_char(chars[i]) {
            return false;
        }
        i += 1;
    }
    true
}

proof fn lemma_trim_start_at(s: Seq<char>, k: int)
    requires
        0 <= k <= s.len(),
        forall|i: int| 0 <= i < k ==> is_space(#[trigger] s[i]),
        k < s.len() ==> !is_space(s[k]),
    ensures
        trim_start(s) == s.subrange(k, s.len() as int),
    decreases k,
{
    if k == 0 {
        assert(s.subrange(0, s.len() as int) =~= s);
    } else {
        assert forall|i: int| 0 <= i < k - 1 implies is_space(#[trigger] s.drop_first()[i]) by {
            assert(s.drop_first()[i] == s[i + 1]);
        }
        lemma_trim_start_at(s.drop_first(), k - 1);
        assert(s.drop_first().subrange(k - 1, s.len() - 1) =~= s.subrange(k, s.len() as int));
    }
}

proof fn lemma_trim_end_at(s: Seq<char>, k: int)
    requires
        0 <= k <= s.len(),
        forall|i: int| k <= i < s.len() ==> is_space(#[trigger] s[i]),
        k > 0 ==> !is_space(s[k - 1]),
    ensures
        trim_end(s) == s.subrange(0, k),
    decreases s.len() - k,
{
    if k == s.len() {
        assert(s.subrange(0, k) =~= s);
    } else {
        assert(is_space(s.last()));
        lemma_trim_end_at(s.drop_last(), k);
        assert(s.drop_last().subrange(0, k) =~= s.subrange(0, k));
    }
}

/// The index of the first character at or after `from` that is no white space, or the length.
pub fn skip_spaces(chars: &Vec<char>, from: usize) -> (at: usize)
    requires
        from <= chars.len(),
    ensures
        from <= at <= chars.len(),
        forall|i: int| from <= i < at ==> is_space(#[trigger] chars@[i]),
        at < chars.len() ==> !is_space(chars@[at as int]),
        trim_start(chars@.subrange(from as int, chars@.len() as int)) == chars@.subrange(
            at as int,
            chars@.len() as int,
        ),
{
    let mut i: usize = from;
    while i < chars.len() && is_space_char(chars[i])
        invariant
            from <= i <= chars.len(),
            forall|k: int| from <= k < i ==> is_space(#[trigger] chars@[k]),
        decreases chars.len() - i,
    {
        i += 1;
    }
    proof {
        let rest = chars@.subrange(from as int, chars@.len() as int);
        lemma_trim_start_at(rest, i - from);
        assert(rest.subrange(i - from, rest.len() as int) =~= chars@.subrange(
            i as int,
            chars@.len() as int,
        ));
    }
    i
}

/// `text` without its leading white space.
pub fn trim_start_of(text: &str) -> (trimmed: String)
    ensures
        trimmed@ == trim_start(text@),
{
    let chars = to_chars(text);
    let from: usize = skip_spaces(&chars, 0);
    assert(chars@.subrange(0, chars@.len() as int) =~= text@);
    from_chars(&chars, from, chars.len())
}

/// `text` without the white space around it.
pub fn trim_of(text: &str) -> (trimmed: String)
    ensures
        trimmed@ == trim(text@),
{
    let chars = to_chars(text);
    let from: usize = skip_spaces(&chars, 0);
    let mut to: usize = chars.len();
    let ghost rest = chars@.subrange(from as int, chars@.len() as int);
    while to > from && is_space_char(chars[to - 1])
        invariant
            from <= to <= chars.len(),
            forall|k: int| to <= k < chars.len() ==> is_space(#[trigger] chars@[k]),
        decreases to,
    {
        to -= 1;
    }
    proof {
        assert(chars@.subrange(0, chars@.len() as int) =~= text@);
        assert forall|i: int| to - from <= i < rest.len() implies is_space(#[trigger] rest[i]) by {
            assert(rest[i] == chars@[i + from]);
        }
        lemma_trim_end_at(rest, to - from);
        assert(rest.subrange(0, to - from) =~= chars@.subrange(from as int, to as int));
    }
    from_chars(&chars, from, to)
}

/// The lower-case form of an ASCII letter; any other character is itself.
pub open spec fn lower(c: char) -> char {
    if 'A' <= c <= 'Z' {
        ((c as u32 + 32) as u32) as char
    } else {
        c
    }
}

/// A text with its ASCII letters in lower case.
pub open spec fn ascii_lower(s: Seq<char>) -> Seq<char> {
    s.map_values(|c: char| lower(c))
}

pub fn lower_char(c: char) -> (low: char)
    ensures
        low == lower(c),
{
    if 'A' <= c && c <= 'Z' {
        let code: u8 = c as u8 + 32;
        code as char
    } else {
        c
    }
}

/// The characters of `text` with its ASCII letters in lower case.
pub fn lower_chars(text: &str) -> (chars: Vec<char>)
    ensures
        chars@ == ascii_lower(text@),
{
    let source = to_chars(text);
    let mut chars: Vec<char> = Vec::new();
    let mut i: usize = 0;
    while i < source.len()
        invariant
            i <= source.len(),
            source@ == text@,
            chars@ == ascii_lower(source@.take(i as int)),
        decreases source.len() - i,
    {
        chars.push(lower_char(source[i]));
        i += 1;
        assert(chars@ =~= ascii_lower(source@.take(i as int)));
    }
    assert(source@.take(i as int) =~= source@);
    chars
}

pub open spec fn is_digit(c: char) -> bool {
    '0' <= c <= '9'
}

pub open spec fn is_alpha(c: char) -> bool {
    'a' <= c <= 'z' || 'A' <= c <= 'Z'
}

pub open spec fn is_alnum(c: char) -> bool {
    is_digit(c) || is_alpha(c)
}

pub fn is_alnum_char(c: char) -> (yes: bool)
    ensures
        yes == is_alnum(c),
{
    ('0' <= c && c <= '9') || ('a' <= c && c <= 'z') || ('A' <= c && c <= 'Z')
}

/// The control characters of Unicode (category Cc).
pub open spec fn is_control(c: char) -> bool {
    (c as u32) < 0x20 || 0x7F <= c as u32 <= 0x9F
}

/// A text that holds a control character.
pub open spec fn with_control(s: Seq<char>) -> bool {
    exists|i: int| 0 <= i < s.len() && is_control(#[trigger] s[i])
}

/// A text of at most `max` bytes without control characters.
pub open spec fn plain(s: Seq<char>, max: nat) -> bool {
    byte_len(s) <= max && !with_control(s)
}

/// Whether `text` is a text of at most `max` bytes without control characters.
pub fn is_plain(text: &str, max: usize) -> (yes: bool)
    ensures
        yes == plain(text@, max as nat),
{
    byte_len_of(text) <= max && !has_control(text)
}

/// Whether `text` holds a control character.
pub fn has_control(text: &str) -> (found: bool)
    ensures
        found == with_control(text@),
{
    let chars = to_chars(text);
    let mut i: usize = 0;
    while i < chars.len()
        invariant
            i <= chars.len(),
            chars@ == text@,
            forall|k: int| 0 <= k < i ==> !is_control(#[trigger] chars@[k]),
        decreases chars.len() - i,
    {
        let code: u32 = chars[i] as u32;
        if code < 0x20 || (0x7F <= code && code <= 0x9F) {
            assert(is_control(text@[i as int]));
            return true;
        }
        i += 1;
    }
    false
}

// ---------------------------------------------------------------- search

pub open spec fn has_prefix(s: Seq<char>, prefix: Seq<char>) -> bool {
    prefix.len() <= s.len() && s.subrange(0, prefix.len() as int) == prefix
}

pub open spec fn has_suffix(s: Seq<char>, suffix: Seq<char>) -> bool {
    suffix.len() <= s.len() && s.subrange(s.len() - suffix.len(), s.len() as int) == suffix
}

/// Whether `part` stands in `s` at index `at`.
pub open spec fn found_at(s: Seq<char>, part: Seq<char>, at: int) -> bool {
    0 <= at && at + part.len() <= s.len() && s.subrange(at, at + part.len()) == part
}

pub open spec fn contains_text(s: Seq<char>, part: Seq<char>) -> bool {
    exists|at: int| found_at(s, part, at)
}

/// Whether `part` stands in `chars` at index `at`.
pub fn part_at(chars: &Vec<char>, part: &Vec<char>, at: usize) -> (found: bool)
    ensures
        found == found_at(chars@, part@, at as int),
{
    if at > chars.len() || chars.len() - at < part.len() {
        return false;
    }
    let mut i: usize = 0;
    while i < part.len()
        invariant
            i <= part.len(),
            at + part.len() <= chars.len(),
            forall|k: int| 0 <= k < i ==> chars@[at + k] == part@[k],
        decreases part.len() - i,
    {
        if chars[at + i] != part[i] {
            assert(chars@.subrange(at as int, at + part@.len())[i as int] != part@[i as int]);
            return false;
        }
        i += 1;
    }
    assert(chars@.subrange(at as int, at + part@.len()) =~= part@);
    true
}

/// The first index at or after `from` where `part` stands in `chars`.
pub fn find_part(chars: &Vec<char>, part: &Vec<char>, from: usize) -> (found: Option<usize>)
    ensures
        match found {
            Some(at) => from <= at && found_at(chars@, part@, at as int) && forall|k: int|
                from <= k < at ==> !found_at(chars@, part@, k),
            None => forall|k: int| from <= k ==> !found_at(chars@, part@, k),
        },
{
    let mut at: usize = from;
    while at <= chars.len() && chars.len() - at >= part.len()
        invariant
            from <= at,
            from <= chars.len() ==> at <= chars.len() + 1,
            forall|k: int| from <= k < at ==> !found_at(chars@, part@, k),
        decreases chars.len() + 1 - at,
    {
        if part_at(chars, part, at) {
            return Some(at);
        }
        if at == chars.len() {
            return None;
        }
        at += 1;
    }
    None
}

pub fn contains_chars(chars: &Vec<char>, part: &str) -> (found: bool)
    ensures
        found == contains_text(chars@, part@),
{
    let needle = to_chars(part);
    match find_part(chars, &needle, 0) {
        Some(_) => true,
        None => false,
    }
}

/// Whether `part` stands anywhere in `text`.
pub fn contains(text: &str, part: &str) -> (found: bool)
    ensures
        found == contains_text(text@, part@),
{
    let chars = to_chars(text);
    contains_chars(&chars, part)
}

pub fn starts_with(text: &str, prefix: &str) -> (yes: bool)
    ensures
        yes == has_prefix(text@, prefix@),
{
    let chars = to_chars(text);
    let part = to_chars(prefix);
    part_at(&chars, &part, 0)
}

pub fn chars_end_with(chars: &Vec<char>, suffix: &str) -> (yes: bool)
    ensures
        yes == has_suffix(chars@, suffix@),
{
    let part = to_chars(suffix);
    if part.len() > chars.len() {
        return false;
    }
    part_at(chars, &part, chars.len() - part.len())
}

// ---------------------------------------------------------------- numbers and lists

/// The character of one decimal digit.
pub open spec fn digit_char(d: nat) -> char {
    ((48 + d) as u32) as char
}

/// A natural number in decimal.
pub open spec fn decimal(n: nat) -> Seq<char>
    decreases n,
{
    if n < 10 {
        seq![digit_char(n)]
    } else {
        decimal(n / 10).push(digit_char(n % 10))
    }
}

/// An integer in decimal, with a sign where it is negative.
pub open spec fn decimal_int(n: int) -> Seq<char> {
    if n < 0 {
        seq!['-'] + decimal((-n) as nat)
    } else {
        decimal(n as nat)
    }
}

/// `n` in decimal.
pub fn decimal_of(n: u128) -> (text: String)
    ensures
        text@ == decimal(n as nat),
    decreases n,
{
    let low: u8 = (n % 10) as u8;
    let digit: char = (48u8 + low) as char;
    if n < 10 {
        let mut text = String::new();
        text.push(digit);
        assert(text@ =~= seq![digit_char(n as nat)]);
        text
    } else {
        let mut text = decimal_of(n / 10);
        text.push(digit);
        text
    }
}

/// `n` in decimal, with a sign where it is negative.
pub fn decimal_int_of(n: i64) -> (text: String)
    ensures
        text@ == decimal_int(n as int),
{
    if n < 0 {
        let magnitude: u128 = (-(n as i128)) as u128;
        let mut text = String::new();
        text.push('-');
        text.append(decimal_of(magnitude).as_str());
        assert(text@ =~= seq!['-'] + decimal(magnitude as nat));
        text
    } else {
        decimal_of(n as u128)
    }
}

/// The parts in order, with `separator` between each two.
pub open spec fn join(parts: Seq<Seq<char>>, separator: Seq<char>) -> Seq<char>
    decreases parts.len(),
{
    if parts.len() == 0 {
        seq![]
    } else if parts.len() == 1 {
        parts[0]
    } else {
        join(parts.drop_last(), separator) + separator + parts.last()
    }
}

/// The parts in order, with `separator` between each two.
pub fn join_of(parts: &Vec<String>, separator: &str) -> (text: String)
    ensures
        text@ == join(texts(parts@), separator@),
{
    let mut text = String::new();
    let mut i: usize = 0;
    while i < parts.len()
        invariant
            i <= parts.len(),
            text@ == join(texts(parts@).take(i as int), separator@),
        decreases parts.len() - i,
    {
        let ghost before = texts(parts@).take(i as int);
        if i > 0 {
            text.append(separator);
        }
        text.append(parts[i].as_str());
        i += 1;
        proof {
            let after = texts(parts@).take(i as int);
            assert(after.drop_last() =~= before);
            assert(after.last() == parts@[i - 1]@);
            assert(text@ =~= join(after, separator@));
        }
    }
    assert(texts(parts@).take(i as int) =~= texts(parts@));
    text
}

/// The order of texts by their characters, the order of their UTF-8 bytes too.
pub open spec fn text_less(a: Seq<char>, b: Seq<char>) -> bool
    decreases a.len(),
{
    if b.len() == 0 {
        false
    } else if a.len() == 0 {
        true
    } else if a[0] != b[0] {
        a[0] < b[0]
    } else {
        text_less(a.drop_first(), b.drop_first())
    }
}

pub proof fn lemma_text_less_total(a: Seq<char>, b: Seq<char>)
    ensures
        text_less(a, b) || text_less(b, a) || a == b,
        !(text_less(a, b) && text_less(b, a)),
        !text_less(a, a),
    decreases a.len(),
{
    if a.len() > 0 {
        lemma_text_less_total(a.drop_first(), a.drop_first());
    }
    if a.len() > 0 && b.len() > 0 && a[0] == b[0] {
        lemma_text_less_total(a.drop_first(), b.drop_first());
        if a.drop_first() == b.drop_first() {
            assert(a =~= seq![a[0]] + a.drop_first());
            assert(b =~= seq![b[0]] + b.drop_first());
        }
    } else if a.len() == 0 && b.len() == 0 {
        assert(a =~= b);
    }
}

pub proof fn lemma_text_less_trans(a: Seq<char>, b: Seq<char>, c: Seq<char>)
    requires
        text_less(a, b),
        text_less(b, c),
    ensures
        text_less(a, c),
    decreases a.len(),
{
    if a.len() > 0 && b.len() > 0 && c.len() > 0 && a[0] == b[0] && b[0] == c[0] {
        lemma_text_less_trans(a.drop_first(), b.drop_first(), c.drop_first());
    }
}

proof fn lemma_text_less_from(a: Seq<char>, b: Seq<char>, i: int)
    requires
        0 <= i <= a.len(),
        i <= b.len(),
        forall|k: int| 0 <= k < i ==> a[k] == b[k],
    ensures
        text_less(a, b) == text_less(
            a.subrange(i, a.len() as int),
            b.subrange(i, b.len() as int),
        ),
    decreases i,
{
    if i == 0 {
        assert(a.subrange(0, a.len() as int) =~= a);
        assert(b.subrange(0, b.len() as int) =~= b);
    } else {
        assert(a[0] == b[0]);
        let x = a.drop_first();
        let y = b.drop_first();
        assert forall|k: int| 0 <= k < i - 1 implies x[k] == y[k] by {
            assert(x[k] == a[k + 1] && y[k] == b[k + 1]);
        }
        lemma_text_less_from(x, y, i - 1);
        assert(x.subrange(i - 1, x.len() as int) =~= a.subrange(i, a.len() as int));
        assert(y.subrange(i - 1, y.len() as int) =~= b.subrange(i, b.len() as int));
    }
}

/// Whether `left` comes before `right` in the order of texts.
pub fn text_before(left: &str, right: &str) -> (before: bool)
    ensures
        before == text_less(left@, right@),
{
    let a = to_chars(left);
    let b = to_chars(right);
    let mut i: usize = 0;
    while i < a.len() && i < b.len() && a[i] == b[i]
        invariant
            i <= a.len(),
            i <= b.len(),
            forall|k: int| 0 <= k < i ==> a@[k] == b@[k],
        decreases a.len() - i,
    {
        i += 1;
    }
    proof {
        lemma_text_less_from(a@, b@, i as int);
    }
    if i >= b.len() {
        false
    } else if i >= a.len() {
        true
    } else {
        a[i] < b[i]
    }
}

/// Whether two texts are the same apart from the case of ASCII letters.
pub fn same_ignoring_case(left: &str, right: &str) -> (same: bool)
    ensures
        same == (ascii_lower(left@) == ascii_lower(right@)),
{
    let a = lower_chars(left);
    let b = lower_chars(right);
    if a.len() != b.len() {
        return false;
    }
    assert(found_at(a@, b@, 0) == (a@ == b@)) by {
        assert(a@.subrange(0, a@.len() as int) =~= a@);
    }
    part_at(&a, &b, 0)
}

/// No two texts of the list are the same apart from the case of ASCII letters.
pub open spec fn distinct_words(list: Seq<Seq<char>>) -> bool {
    forall|i: int, j: int|
        0 <= i < j < list.len() ==> ascii_lower(#[trigger] list[i]) != ascii_lower(
            #[trigger] list[j],
        )
}

pub fn are_distinct_words(list: &Vec<String>) -> (distinct: bool)
    ensures
        distinct == distinct_words(texts(list@)),
{
    let ghost views = texts(list@);
    let mut j: usize = 0;
    while j < list.len()
        invariant
            j <= list.len(),
            views == texts(list@),
            forall|a: int, b: int|
                0 <= a < b < j ==> ascii_lower(#[trigger] views[a]) != ascii_lower(
                    #[trigger] views[b],
                ),
        decreases list.len() - j,
    {
        let mut i: usize = 0;
        while i < j
            invariant
                i <= j < list.len(),
                views == texts(list@),
                forall|a: int| 0 <= a < i ==> ascii_lower(#[trigger] views[a]) != ascii_lower(
                    views[j as int],
                ),
            decreases j - i,
        {
            if same_ignoring_case(list[i].as_str(), list[j].as_str()) {
                assert(ascii_lower(views[i as int]) == ascii_lower(views[j as int]));
                return false;
            }
            i += 1;
        }
        j += 1;
    }
    true
}

/// Every text of the list is no blank, of at most `max` bytes, and without control characters.
pub open spec fn all_words(list: Seq<Seq<char>>, max: nat) -> bool {
    forall|i: int| 0 <= i < list.len() ==> !blank(#[trigger] list[i]) && plain(list[i], max)
}

pub fn are_all_words(list: &Vec<String>, max: usize) -> (yes: bool)
    ensures
        yes == all_words(texts(list@), max as nat),
{
    let ghost views = texts(list@);
    let mut i: usize = 0;
    while i < list.len()
        invariant
            i <= list.len(),
            views == texts(list@),
            forall|k: int| 0 <= k < i ==> !blank(#[trigger] views[k]) && plain(views[k], max as nat),
        decreases list.len() - i,
    {
        if is_blank(list[i].as_str()) || !is_plain(list[i].as_str(), max) {
            assert(blank(views[i as int]) || !plain(views[i as int], max as nat));
            return false;
        }
        i += 1;
    }
    true
}

/// A text of 1 to `max` bytes without control characters, where there is a text at all.
pub open spec fn opt_plain(value: Option<Seq<char>>, max: nat) -> bool {
    match value {
        Some(text) => text.len() > 0 && plain(text, max),
        None => true,
    }
}

pub fn is_opt_plain(value: &Option<String>, max: usize) -> (yes: bool)
    ensures
        yes == opt_plain(opt_text(*value), max as nat),
{
    match value {
        Some(text) => !text.as_str().is_empty() && is_plain(text.as_str(), max),
        None => true,
    }
}

/// Sixty-four hexadecimal digits, the form of a SHA-256 digest.
pub open spec fn is_sha256(s: Seq<char>) -> bool {
    s.len() == 64 && forall|i: int| 0 <= i < s.len() ==> is_hex(#[trigger] s[i])
}

pub open spec fn is_hex(c: char) -> bool {
    is_digit(c) || 'a' <= c <= 'f' || 'A' <= c <= 'F'
}

pub fn is_sha256_text(value: &str) -> (yes: bool)
    ensures
        yes == is_sha256(value@),
{
    let chars = to_chars(value);
    if chars.len() != 64 {
        return false;
    }
    let mut i: usize = 0;
    while i < chars.len()
        invariant
            i <= chars.len(),
            chars@ == value@,
            forall|k: int| 0 <= k < i ==> is_hex(#[trigger] chars@[k]),
        decreases chars.len() - i,
    {
        let c: char = chars[i];
        if !(('0' <= c && c <= '9') || ('a' <= c && c <= 'f') || ('A' <= c && c <= 'F')) {
            assert(!is_hex(value@[i as int]));
            return false;
        }
        i += 1;
    }
    true
}

/// The first index at or after `from` where `part` stands in `s`.
pub open spec fn index_of(s: Seq<char>, part: Seq<char>, from: int) -> Option<int>
    decreases s.len() - from,
{
    if from < 0 || from + part.len() > s.len() {
        None
    } else if found_at(s, part, from) {
        Some(from)
    } else if from >= s.len() {
        None
    } else {
        index_of(s, part, from + 1)
    }
}

pub proof fn lemma_index_of(s: Seq<char>, part: Seq<char>, from: int)
    requires
        0 <= from,
    ensures
        match index_of(s, part, from) {
            Some(at) => from <= at && found_at(s, part, at) && forall|k: int|
                from <= k < at ==> !found_at(s, part, k),
            None => forall|k: int| from <= k ==> !found_at(s, part, k),
        },
    decreases s.len() - from,
{
    if from + part.len() <= s.len() && !found_at(s, part, from) && from < s.len() {
        lemma_index_of(s, part, from + 1);
    }
}

/// The first index at or after `from` where `part` stands in `chars`.
pub fn find_text(chars: &Vec<char>, part: &Vec<char>, from: usize) -> (found: Option<usize>)
    ensures
        match found {
            Some(at) => index_of(chars@, part@, from as int) == Some(at as int),
            None => index_of(chars@, part@, from as int) is None,
        },
{
    let found = find_part(chars, part, from);
    proof {
        lemma_index_of(chars@, part@, from as int);
    }
    found
}

/// A text that holds `part` holds each of its characters.
pub proof fn lemma_contains_char(s: Seq<char>, part: Seq<char>, j: int)
    requires
        contains_text(s, part),
        0 <= j < part.len(),
    ensures
        s.contains(part[j]),
{
    let at = choose|at: int| found_at(s, part, at);
    assert(s.subrange(at, at + part.len())[j] == s[at + j]);
}

/// How often `c` stands in `s`.
pub open spec fn count_char(s: Seq<char>, c: char) -> nat
    decreases s.len(),
{
    if s.len() == 0 {
        0
    } else {
        count_char(s.drop_last(), c) + if s.last() == c {
            1nat
        } else {
            0nat
        }
    }
}

pub fn count_of(text: &str, c: char) -> (count: usize)
    ensures
        count == count_char(text@, c),
{
    let chars = to_chars(text);
    let mut count: usize = 0;
    let mut i: usize = 0;
    while i < chars.len()
        invariant
            i <= chars.len(),
            chars@ == text@,
            count <= i,
            count == count_char(chars@.take(i as int), c),
        decreases chars.len() - i,
    {
        assert(chars@.take(i + 1).drop_last() =~= chars@.take(i as int));
        if chars[i] == c {
            count += 1;
        }
        i += 1;
    }
    assert(chars@.take(i as int) =~= chars@);
    count
}

/// Four texts, one after the other; the last ones can be empty.
pub fn joined(a: &str, b: &str, c: &str, d: &str) -> (whole: String)
    ensures
        whole@ == a@ + b@ + c@ + d@,
        c@ == ""@ && d@ == ""@ ==> whole@ == a@ + b@,
        d@ == ""@ ==> whole@ == a@ + b@ + c@,
{
    let mut whole = a.to_owned();
    whole.append(b);
    whole.append(c);
    whole.append(d);
    proof {
        reveal_strlit("");
        if d@ == ""@ {
            assert(whole@ =~= a@ + b@ + c@);
            if c@ == ""@ {
                assert(whole@ =~= a@ + b@);
            }
        }
    }
    whole
}

/// An ASCII text takes one byte for each character.
pub proof fn lemma_ascii_bytes(s: Seq<char>)
    requires
        forall|i: int| 0 <= i < s.len() ==> ((#[trigger] s[i]) as u32) < 128,
    ensures
        byte_len(s) == s.len(),
    decreases s.len(),
{
    if s.len() == 0 {
        lemma_byte_len_bounds(s);
    } else {
        lemma_ascii_bytes(s.drop_last());
        lemma_byte_len_push(s.drop_last(), s.last());
        assert(s.drop_last().push(s.last()) =~= s);
    }
}

/// A decimal number takes one byte for each digit, and no more of them than its bound has.
pub proof fn lemma_decimal_bytes(n: nat, digits: nat)
    requires
        digits >= 1,
        n < vstd::arithmetic::power::pow(10, digits),
    ensures
        byte_len(decimal(n)) <= digits,
    decreases digits,
{
    if n < 10 {
        let c = digit_char(n);
        assert(decimal(n) =~= seq![c]);
        lemma_byte_len_single(c);
    } else {
        vstd::arithmetic::power::lemma_pow1(10);
        let up = vstd::arithmetic::power::pow(10, (digits - 1) as nat);
        assert(vstd::arithmetic::power::pow(10, digits) == 10 * up) by {
            reveal(vstd::arithmetic::power::pow);
        }
        assert(n / 10 < up) by (nonlinear_arith)
            requires
                n < 10 * up,
        ;
        lemma_decimal_bytes(n / 10, (digits - 1) as nat);
        lemma_byte_len_push(decimal(n / 10), digit_char(n % 10));
    }
}

// ---------------------------------------------------------------- cuts

/// The longest start of a text that takes at most `max` bytes.
pub open spec fn fitting_prefix(s: Seq<char>, max: nat) -> Seq<char>
    decreases s.len(),
{
    if s.len() == 0 || byte_len(s) <= max {
        s
    } else {
        fitting_prefix(s.drop_last(), max)
    }
}

/// The longest end of a text that takes at most `max` bytes.
pub open spec fn fitting_suffix(s: Seq<char>, max: nat) -> Seq<char>
    decreases s.len(),
{
    if s.len() == 0 || byte_len(s) <= max {
        s
    } else {
        fitting_suffix(s.drop_first(), max)
    }
}

/// A start fits, and is the longest one that does, where one more character is too much.
pub proof fn lemma_fitting_prefix(s: Seq<char>, max: nat, n: int)
    requires
        0 <= n <= s.len(),
        byte_len(s.take(n)) <= max,
        n < s.len() ==> byte_len(s.take(n + 1)) > max,
    ensures
        fitting_prefix(s, max) == s.take(n),
    decreases s.len(),
{
    if n == s.len() {
        assert(s.take(n) =~= s);
    } else {
        let shorter = s.drop_last();
        lemma_byte_len_prefix(s, n + 1);
        assert(shorter.take(n) =~= s.take(n));
        if n < shorter.len() {
            assert(shorter.take(n + 1) =~= s.take(n + 1));
        }
        lemma_fitting_prefix(shorter, max, n);
    }
}

/// A start takes no more bytes than the whole.
pub proof fn lemma_byte_len_prefix(s: Seq<char>, n: int)
    requires
        0 <= n <= s.len(),
    ensures
        byte_len(s.take(n)) <= byte_len(s),
        byte_len(s.take(n)) + byte_len(s.skip(n)) == byte_len(s),
{
    assert(s =~= s.take(n) + s.skip(n));
    lemma_byte_len_add(s.take(n), s.skip(n));
}

/// An end fits, and is the longest one that does, where one more character is too much.
pub proof fn lemma_fitting_suffix(s: Seq<char>, max: nat, n: int)
    requires
        0 <= n <= s.len(),
        byte_len(s.skip(n)) <= max,
        n > 0 ==> byte_len(s.skip(n - 1)) > max,
    ensures
        fitting_suffix(s, max) == s.skip(n),
    decreases s.len(),
{
    if n == 0 {
        assert(s.skip(0) =~= s);
    } else {
        let shorter = s.drop_first();
        lemma_byte_len_prefix(s, n - 1);
        assert(shorter.skip(n - 1) =~= s.skip(n));
        if n > 1 {
            assert(shorter.skip(n - 2) =~= s.skip(n - 1));
        }
        lemma_fitting_suffix(shorter, max, n - 1);
    }
}

/// The longest start and the longest end that fit do fit, and are a start and an end.
pub proof fn lemma_fitting_fits(s: Seq<char>, max: nat)
    ensures
        byte_len(fitting_prefix(s, max)) <= max,
        byte_len(fitting_suffix(s, max)) <= max,
        has_prefix(s, fitting_prefix(s, max)),
        has_suffix(s, fitting_suffix(s, max)),
    decreases s.len(),
{
    if s.len() == 0 || byte_len(s) <= max {
        lemma_byte_len_bounds(s);
        assert(s.subrange(0, s.len() as int) =~= s);
    } else {
        let head = fitting_prefix(s.drop_last(), max);
        let tail = fitting_suffix(s.drop_first(), max);
        lemma_fitting_fits(s.drop_last(), max);
        lemma_fitting_fits(s.drop_first(), max);
        assert(s.subrange(0, head.len() as int) =~= s.drop_last().subrange(0, head.len() as int));
        let n = s.len() as int;
        assert(s.subrange(n - tail.len(), n) =~= s.drop_first().subrange(
            n - 1 - tail.len(),
            n - 1,
        ));
    }
}

/// How many characters the longest start that fits has.
pub fn fitting_prefix_len(chars: &Vec<char>, max: usize) -> (n: usize)
    ensures
        n <= chars@.len(),
        fitting_prefix(chars@, max as nat) == chars@.take(n as int),
{
    let mut n: usize = 0;
    let mut left: usize = max;
    assert(chars@.take(0) =~= seq![]);
    proof {
        lemma_byte_len_bounds(chars@.take(0));
    }
    while n < chars.len()
        invariant
            n <= chars@.len(),
            left + byte_len(chars@.take(n as int)) == max,
        decreases chars.len() - n,
    {
        let size: usize = char_bytes_of(chars[n]);
        proof {
            assert(chars@.take(n + 1) =~= chars@.take(n as int).push(chars@[n as int]));
            lemma_byte_len_push(chars@.take(n as int), chars@[n as int]);
        }
        if size > left {
            proof {
                lemma_fitting_prefix(chars@, max as nat, n as int);
            }
            return n;
        }
        left -= size;
        n += 1;
    }
    proof {
        lemma_fitting_prefix(chars@, max as nat, n as int);
    }
    n
}

/// Where the longest end that fits begins.
pub fn fitting_suffix_start(chars: &Vec<char>, max: usize) -> (n: usize)
    ensures
        n <= chars@.len(),
        fitting_suffix(chars@, max as nat) == chars@.skip(n as int),
{
    let mut n: usize = chars.len();
    let mut left: usize = max;
    assert(chars@.skip(n as int) =~= seq![]);
    proof {
        lemma_byte_len_bounds(chars@.skip(n as int));
    }
    while n > 0
        invariant
            n <= chars@.len(),
            left + byte_len(chars@.skip(n as int)) == max,
        decreases n,
    {
        let size: usize = char_bytes_of(chars[n - 1]);
        proof {
            let c = chars@[n - 1];
            assert(chars@.skip(n - 1) =~= seq![c] + chars@.skip(n as int));
            lemma_byte_len_add(seq![c], chars@.skip(n as int));
            lemma_byte_len_single(c);
        }
        if size > left {
            proof {
                lemma_fitting_suffix(chars@, max as nat, n as int);
            }
            return n;
        }
        left -= size;
        n -= 1;
    }
    proof {
        lemma_fitting_suffix(chars@, max as nat, 0);
    }
    n
}

// ---------------------------------------------------------------- sorting

/// The order by which texts are sorted.
pub open spec fn at_most() -> spec_fn(Seq<char>, Seq<char>) -> bool {
    |a: Seq<char>, b: Seq<char>| a == b || text_less(a, b)
}

/// The texts in their order.
pub open spec fn sorted_texts(parts: Seq<Seq<char>>) -> Seq<Seq<char>> {
    parts.sort_by(at_most())
}

pub proof fn lemma_at_most_total()
    ensures
        vstd::relations::total_ordering(at_most()),
{
    let leq = at_most();
    assert forall|a: Seq<char>, b: Seq<char>| #[trigger] leq(a, b) && #[trigger] leq(b, a) implies a
        == b by {
        lemma_text_less_total(a, b);
    }
    assert forall|a: Seq<char>, b: Seq<char>, c: Seq<char>| #[trigger]
        leq(a, b) && #[trigger] leq(b, c) implies leq(a, c) by {
        if text_less(a, b) && text_less(b, c) {
            lemma_text_less_trans(a, b, c);
        }
    }
    assert forall|a: Seq<char>, b: Seq<char>| #[trigger] leq(a, b) || #[trigger] leq(b, a) by {
        lemma_text_less_total(a, b);
    }
}

/// The sorted texts depend on which texts there are, and how often, not on their order.
pub proof fn lemma_sorting_ignores_order(a: Seq<Seq<char>>, b: Seq<Seq<char>>)
    requires
        a.to_multiset() == b.to_multiset(),
    ensures
        sorted_texts(a) == sorted_texts(b),
{
    lemma_at_most_total();
    a.lemma_sort_by_ensures(at_most());
    b.lemma_sort_by_ensures(at_most());
    vstd::seq_lib::lemma_sorted_unique(sorted_texts(a), sorted_texts(b), at_most());
}

fn insert_sorted(list: &mut Vec<String>, item: String)
    requires
        vstd::relations::sorted_by(texts(old(list)@), at_most()),
    ensures
        vstd::relations::sorted_by(texts(final(list)@), at_most()),
        texts(final(list)@).to_multiset() == texts(old(list)@).to_multiset().insert(item@),
{
    let ghost before = texts(list@);
    let ghost leq = at_most();
    let mut at: usize = 0;
    while at < list.len() && !text_before(item.as_str(), list[at].as_str())
        invariant
            at <= list.len(),
            before == texts(list@),
            forall|k: int| 0 <= k < at ==> !text_less(item@, #[trigger] before[k]),
        decreases list.len() - at,
    {
        at += 1;
    }
    let ghost word = item@;
    list.insert(at, item);
    proof {
        lemma_at_most_total();
        let after = texts(list@);
        assert(after =~= before.insert(at as int, word));
        vstd::seq_lib::to_multiset_insert(before, at as int, word);
        assert forall|i: int, j: int| 0 <= i < j < after.len() implies #[trigger] leq(
            after[i],
            after[j],
        ) by {
            let x = after[i];
            let y = after[j];
            if i < at && j < at {
                assert(x == before[i] && y == before[j]);
                assert(leq(before[i], before[j]));
            } else if i < at && j == at {
                assert(x == before[i] && y == word);
                lemma_text_less_total(word, x);
            } else if i < at && j > at {
                assert(x == before[i] && y == before[j - 1]);
                assert(leq(before[i], before[j - 1]));
            } else if i == at {
                assert(y == before[j - 1]);
                assert(text_less(word, before[at as int]));
                if j - 1 > at {
                    assert(leq(before[at as int], before[j - 1]));
                    if before[at as int] != before[j - 1] {
                        lemma_text_less_trans(word, before[at as int], before[j - 1]);
                    }
                }
            } else {
                assert(x == before[i - 1] && y == before[j - 1]);
                assert(leq(before[i - 1], before[j - 1]));
            }
        }
    }
}

/// The texts in their order.
pub fn sort_texts(parts: &Vec<String>) -> (sorted: Vec<String>)
    ensures
        texts(sorted@) == sorted_texts(texts(parts@)),
{
    let ghost all = texts(parts@);
    let mut sorted: Vec<String> = Vec::new();
    let mut i: usize = 0;
    assert(texts(sorted@) =~= all.take(0));
    while i < parts.len()
        invariant
            i <= parts.len(),
            all == texts(parts@),
            vstd::relations::sorted_by(texts(sorted@), at_most()),
            texts(sorted@).to_multiset() == all.take(i as int).to_multiset(),
        decreases parts.len() - i,
    {
        insert_sorted(&mut sorted, parts[i].clone());
        proof {
            assert(all.take(i + 1) =~= all.take(i as int).push(all[i as int]));
            vstd::seq_lib::to_multiset_build(all.take(i as int), all[i as int]);
        }
        i += 1;
    }
    proof {
        assert(all.take(i as int) =~= all);
        lemma_at_most_total();
        all.lemma_sort_by_ensures(at_most());
        vstd::seq_lib::lemma_sorted_unique(texts(sorted@), sorted_texts(all), at_most());
    }
    sorted
}

// ---------------------------------------------------------------- places

/// Where a text stands first in a list.
pub open spec fn place(list: Seq<Seq<char>>, item: Seq<char>) -> Option<int>
    decreases list.len(),
{
    if list.len() == 0 {
        None
    } else {
        match place(list.drop_last(), item) {
            Some(at) => Some(at),
            None => if list.last() == item {
                Some(list.len() - 1)
            } else {
                None
            },
        }
    }
}

/// Where a text is found it stands, and nowhere before; where none is found it stands nowhere.
pub proof fn lemma_place(list: Seq<Seq<char>>, item: Seq<char>)
    ensures
        match place(list, item) {
            Some(at) => 0 <= at < list.len() && list[at] == item && forall|k: int|
                0 <= k < at ==> #[trigger] list[k] != item,
            None => forall|k: int| 0 <= k < list.len() ==> #[trigger] list[k] != item,
        },
    decreases list.len(),
{
    if list.len() > 0 {
        let shorter = list.drop_last();
        lemma_place(shorter, item);
        match place(shorter, item) {
            Some(at) => {
                assert(shorter[at] == list[at]);
                assert forall|k: int| 0 <= k < at implies #[trigger] list[k] != item by {
                    assert(shorter[k] == list[k]);
                }
            },
            None => {
                assert forall|k: int| 0 <= k < list.len() - 1 implies #[trigger] list[k]
                    != item by {
                    assert(shorter[k] == list[k]);
                }
            },
        }
    }
}

/// The place of a text that stands somewhere and nowhere before.
pub proof fn lemma_place_at(list: Seq<Seq<char>>, item: Seq<char>, at: int)
    requires
        0 <= at <= list.len(),
        forall|k: int| 0 <= k < at ==> #[trigger] list[k] != item,
        at < list.len() ==> list[at] == item,
    ensures
        place(list, item) == if at < list.len() {
            Some(at)
        } else {
            None
        },
{
    lemma_place(list, item);
    match place(list, item) {
        Some(found) => {
            if found < at {
                assert(list[found] != item);
            }
            if at < list.len() && at < found {
                assert(list[at] != item);
            }
        },
        None => {
            if at < list.len() {
                assert(list[at] != item);
            }
        },
    }
}

/// Whether two optional texts are the same.
pub fn same_opt(left: &Option<String>, right: &Option<String>) -> (same: bool)
    ensures
        same == (opt_text(*left) == opt_text(*right)),
{
    match (left, right) {
        (Some(a), Some(b)) => same_text(a.as_str(), b.as_str()),
        (None, None) => true,
        _ => false,
    }
}

// ---------------------------------------------------------------- lines

/// The first index at or after `from` where `c` stands.
pub open spec fn char_place(s: Seq<char>, c: char, from: int) -> Option<int>
    decreases s.len() - from,
{
    if from < 0 || from >= s.len() {
        None
    } else if s[from] == c {
        Some(from)
    } else {
        char_place(s, c, from + 1)
    }
}

/// The first index at or after `from` where `c` stands in `chars`.
pub fn find_char(chars: &Vec<char>, c: char, from: usize) -> (found: Option<usize>)
    ensures
        match found {
            Some(at) => char_place(chars@, c, from as int) == Some(at as int) && from <= at
                < chars@.len(),
            None => char_place(chars@, c, from as int) is None,
        },
{
    let mut at: usize = from;
    while at < chars.len()
        invariant
            from <= at,
            char_place(chars@, c, from as int) == char_place(chars@, c, at as int),
        decreases chars.len() - at,
    {
        if chars[at] == c {
            return Some(at);
        }
        at += 1;
    }
    None
}

/// A line without a carriage return at its end.
pub open spec fn without_return(line: Seq<char>) -> Seq<char> {
    if line.len() > 0 && line.last() == '\r' {
        line.drop_last()
    } else {
        line
    }
}

/// The lines of a text from an index on. A line that a break ends loses a carriage return before
/// the break; nothing after the last break is no line.
pub open spec fn lines_from(s: Seq<char>, from: int) -> Seq<Seq<char>>
    decreases s.len() - from,
{
    if from < 0 || from >= s.len() {
        seq![]
    } else {
        match char_place(s, '\n', from) {
            Some(at) => if from <= at < s.len() {
                seq![without_return(s.subrange(from, at))] + lines_from(s, at + 1)
            } else {
                seq![]
            },
            None => seq![s.subrange(from, s.len() as int)],
        }
    }
}

/// The lines of a text.
pub open spec fn lines(s: Seq<char>) -> Seq<Seq<char>> {
    lines_from(s, 0)
}

/// The lines of `text`.
pub fn lines_of(text: &str) -> (found: Vec<String>)
    ensures
        texts(found@) == lines(text@),
{
    let chars = to_chars(text);
    let mut found: Vec<String> = Vec::new();
    let mut from: usize = 0;
    assert(texts(found@) + lines_from(text@, 0) =~= lines(text@));
    while from < chars.len()
        invariant
            from <= chars.len(),
            chars@ == text@,
            texts(found@) + lines_from(text@, from as int) == lines(text@),
        decreases chars.len() - from,
    {
        let ghost before = texts(found@);
        match find_char(&chars, '\n', from) {
            Some(at) => {
                let end: usize = if at > from && chars[at - 1] == '\r' {
                    at - 1
                } else {
                    at
                };
                let line = from_chars(&chars, from, end);
                let ghost view = line@;
                proof {
                    let whole = text@.subrange(from as int, at as int);
                    if end < at {
                        assert(whole.last() == '\r');
                        assert(whole.drop_last() =~= view);
                    } else if whole.len() > 0 {
                        assert(whole.last() == chars@[at - 1]);
                    }
                    assert(view == without_return(whole));
                }
                found.push(line);
                proof {
                    assert(texts(found@) =~= before.push(view));
                    assert(before + (seq![view] + lines_from(text@, at + 1)) =~= before.push(view)
                        + lines_from(text@, at + 1));
                }
                from = at + 1;
            },
            None => {
                let line = from_chars(&chars, from, chars.len());
                let ghost view = line@;
                found.push(line);
                proof {
                    assert(texts(found@) =~= before.push(view));
                    assert(before + seq![view] =~= before.push(view));
                    assert(lines_from(text@, chars@.len() as int).len() == 0);
                    assert(texts(found@) + lines_from(text@, chars@.len() as int) =~= texts(
                        found@,
                    ));
                }
                from = chars.len();
            },
        }
    }
    assert(texts(found@) + lines_from(text@, from as int) =~= texts(found@));
    found
}

/// The end of a text that fits starts where one more character would be too much. Gives where.
pub proof fn lemma_fitting_suffix_longest(s: Seq<char>, max: nat) -> (from: int)
    ensures
        0 <= from <= s.len(),
        fitting_suffix(s, max) == s.skip(from),
        byte_len(s.skip(from)) <= max,
        from > 0 ==> byte_len(s.skip(from - 1)) > max,
        from == 0 <==> byte_len(s) <= max,
    decreases s.len(),
{
    assert(s.skip(0) =~= s);
    if s.len() == 0 || byte_len(s) <= max {
        lemma_byte_len_bounds(s);
        0
    } else {
        let shorter = s.drop_first();
        let from = lemma_fitting_suffix_longest(shorter, max);
        assert(shorter.skip(from) =~= s.skip(from + 1));
        if from > 0 {
            assert(shorter.skip(from - 1) =~= s.skip(from));
        }
        from + 1
    }
}

/// The start of a text that fits ends where one more character would be too much. Gives where.
pub proof fn lemma_fitting_prefix_longest(s: Seq<char>, max: nat) -> (upto: int)
    ensures
        0 <= upto <= s.len(),
        fitting_prefix(s, max) == s.take(upto),
        byte_len(s.take(upto)) <= max,
        upto < s.len() ==> byte_len(s.take(upto + 1)) > max,
        upto == s.len() <==> byte_len(s) <= max,
    decreases s.len(),
{
    assert(s.take(s.len() as int) =~= s);
    if s.len() == 0 || byte_len(s) <= max {
        lemma_byte_len_bounds(s);
        s.len() as int
    } else {
        let shorter = s.drop_last();
        let upto = lemma_fitting_prefix_longest(shorter, max);
        assert(shorter.take(upto) =~= s.take(upto));
        if upto < shorter.len() {
            assert(shorter.take(upto + 1) =~= s.take(upto + 1));
        } else {
            assert(s.take(upto + 1) =~= s);
        }
        upto
    }
}

/// A trimmed text is the text between the white space around it: nothing but white space goes, and
/// none is left at either end.
pub proof fn law_trimming_removes_space_alone(s: Seq<char>) -> (bounds: (int, int))
    ensures
        ({
            let (from, upto) = bounds;
            &&& 0 <= from <= upto <= s.len()
            &&& trim(s) == s.subrange(from, upto)
            &&& forall|i: int| 0 <= i < from ==> is_space(#[trigger] s[i])
            &&& forall|i: int| upto <= i < s.len() ==> is_space(#[trigger] s[i])
            &&& from < upto ==> !is_space(s[from]) && !is_space(s[upto - 1])
        }),
{
    let from = lemma_trim_start_from(s);
    let rest = s.skip(from);
    let upto = lemma_trim_end_upto(rest);
    assert(trim(s) =~= s.subrange(from, from + upto));
    assert forall|i: int| from + upto <= i < s.len() implies is_space(#[trigger] s[i]) by {
        assert(rest[i - from] == s[i]);
    }
    if upto > 0 {
        assert(rest[upto - 1] == s[from + upto - 1]);
        assert(rest[0] == s[from]);
    }
    (from, from + upto)
}

proof fn lemma_trim_start_from(s: Seq<char>) -> (from: int)
    ensures
        0 <= from <= s.len(),
        trim_start(s) == s.skip(from),
        forall|i: int| 0 <= i < from ==> is_space(#[trigger] s[i]),
        from < s.len() ==> !is_space(s[from]),
    decreases s.len(),
{
    if s.len() > 0 && is_space(s[0]) {
        let rest = s.drop_first();
        let from = lemma_trim_start_from(rest);
        assert(rest.skip(from) =~= s.skip(from + 1));
        assert forall|i: int| 0 <= i < from + 1 implies is_space(#[trigger] s[i]) by {
            if i > 0 {
                assert(rest[i - 1] == s[i]);
            }
        }
        if from < rest.len() {
            assert(rest[from] == s[from + 1]);
        }
        from + 1
    } else {
        assert(s.skip(0) =~= s);
        0
    }
}

proof fn lemma_trim_end_upto(s: Seq<char>) -> (upto: int)
    ensures
        0 <= upto <= s.len(),
        trim_end(s) == s.take(upto),
        forall|i: int| upto <= i < s.len() ==> is_space(#[trigger] s[i]),
        upto > 0 ==> !is_space(s[upto - 1]),
    decreases s.len(),
{
    if s.len() > 0 && is_space(s.last()) {
        let rest = s.drop_last();
        let upto = lemma_trim_end_upto(rest);
        assert(rest.take(upto) =~= s.take(upto));
        assert forall|i: int| upto <= i < s.len() implies is_space(#[trigger] s[i]) by {
            if i < rest.len() {
                assert(rest[i] == s[i]);
            }
        }
        upto
    } else {
        assert(s.take(s.len() as int) =~= s);
        s.len() as int
    }
}

/// The number that decimal digits stand for.
pub open spec fn decimal_value(s: Seq<char>) -> int
    decreases s.len(),
{
    if s.len() == 0 {
        0
    } else {
        10 * decimal_value(s.drop_last()) + (s.last() as int - '0' as int)
    }
}

/// A number in decimal reads back as itself; it is digits alone, without a zero in front but for
/// zero itself.
pub proof fn law_decimals_read_back(n: nat)
    ensures
        decimal_value(decimal(n)) == n,
        decimal(n).len() > 0,
        forall|i: int| 0 <= i < decimal(n).len() ==> '0' <= #[trigger] decimal(n)[i] <= '9',
        n > 0 ==> decimal(n)[0] != '0',
        n == 0 ==> decimal(n) == seq!['0'],
    decreases n,
{
    let d = n % 10;
    assert(digit_char(d) as int == 48 + d);
    if n < 10 {
        assert(decimal(n).drop_last() =~= seq![]);
        assert(decimal_value(decimal(n).drop_last()) == 0);
        if n == 0 {
            assert(decimal(n) =~= seq!['0']);
        }
    } else {
        law_decimals_read_back(n / 10);
        assert(decimal(n).drop_last() =~= decimal(n / 10));
    }
}

/// A sign stands in front of a negative number, and of no other.
pub proof fn law_signs_are_for_negatives(n: int)
    ensures
        n >= 0 ==> decimal_int(n) == decimal(n as nat),
        n < 0 ==> decimal_int(n)[0] == '-' && decimal_int(n).skip(1) == decimal((-n) as nat),
{
    if n < 0 {
        assert(decimal_int(n).skip(1) =~= decimal((-n) as nat));
    }
}

/// Parts are joined in order, with the separator between each two and nowhere else.
pub proof fn law_parts_are_joined_in_order(
    parts: Seq<Seq<char>>,
    part: Seq<char>,
    separator: Seq<char>,
)
    ensures
        join(Seq::<Seq<char>>::empty(), separator) == Seq::<char>::empty(),
        join(seq![part], separator) == part,
        parts.len() > 0 ==> join(parts.push(part), separator) == join(parts, separator) + separator
            + part,
{
    assert(parts.push(part).drop_last() =~= parts);
}

/// Lower case changes the capital letters of ASCII, each to its small one, and nothing else.
pub proof fn law_lower_case_changes_capitals_alone(s: Seq<char>, i: int)
    requires
        0 <= i < s.len(),
    ensures
        ascii_lower(s).len() == s.len(),
        'A' <= s[i] <= 'Z' ==> ascii_lower(s)[i] as int == s[i] as int + 32,
        !('A' <= s[i] <= 'Z') ==> ascii_lower(s)[i] == s[i],
{
}

/// Sorting keeps every text as often as it was there, and puts each in front of those after it.
pub proof fn law_sorted_texts_are_in_order(parts: Seq<Seq<char>>, i: int, j: int)
    ensures
        sorted_texts(parts).to_multiset() == parts.to_multiset(),
        sorted_texts(parts).len() == parts.len(),
        0 <= i < j < parts.len() ==> sorted_texts(parts)[i] == sorted_texts(parts)[j] || text_less(
            sorted_texts(parts)[i],
            sorted_texts(parts)[j],
        ),
{
    lemma_at_most_total();
    parts.lemma_sort_by_ensures(at_most());
    sorted_texts(parts).to_multiset_ensures();
    parts.to_multiset_ensures();
    if 0 <= i < j < parts.len() {
        let leq = at_most();
        assert(leq(sorted_texts(parts)[i], sorted_texts(parts)[j]));
    }
}

/// One text comes before another where it is a start of it, or has the smaller character where they
/// first differ.
pub proof fn law_texts_are_ordered_by_characters(a: Seq<char>, b: Seq<char>, k: int)
    requires
        0 <= k <= a.len() && k <= b.len(),
        a.take(k) == b.take(k),
    ensures
        k == a.len() && k < b.len() ==> text_less(a, b) && !text_less(b, a),
        k < a.len() && k < b.len() && a[k] < b[k] ==> text_less(a, b) && !text_less(b, a),
        k == a.len() && k == b.len() ==> !text_less(a, b),
    decreases k,
{
    if k > 0 {
        assert(a[0] == a.take(k)[0]);
        assert(b[0] == b.take(k)[0]);
        let x = a.drop_first();
        let y = b.drop_first();
        assert(x.take(k - 1) =~= a.take(k).drop_first());
        assert(y.take(k - 1) =~= b.take(k).drop_first());
        law_texts_are_ordered_by_characters(x, y, k - 1);
        if k < a.len() && k < b.len() {
            assert(x[k - 1] == a[k] && y[k - 1] == b[k]);
        }
    }
}

proof fn lemma_char_place(s: Seq<char>, c: char, from: int, at: int)
    requires
        0 <= from <= at <= s.len(),
        forall|k: int| from <= k < at ==> #[trigger] s[k] != c,
        at < s.len() ==> s[at] == c,
    ensures
        char_place(s, c, from) == if at < s.len() {
            Some(at)
        } else {
            None
        },
    decreases at - from,
{
    if from < at {
        lemma_char_place(s, c, from + 1, at);
    }
}

proof fn lemma_lines_from_skip(s: Seq<char>, t: Seq<char>, from: int, back: int)
    requires
        0 <= from,
        0 <= back <= from,
        from <= s.len(),
        t == s.skip(back),
    ensures
        lines_from(s, from) == lines_from(t, from - back),
    decreases s.len() - from,
{
    if from < s.len() {
        lemma_char_place_skip(s, t, '\n', from, back);
        match char_place(s, '\n', from) {
            Some(at) => {
                if from <= at < s.len() {
                    assert(s.subrange(from, at) =~= t.subrange(from - back, at - back));
                    lemma_lines_from_skip(s, t, at + 1, back);
                }
            },
            None => {
                assert(s.subrange(from, s.len() as int) =~= t.subrange(
                    from - back,
                    t.len() as int,
                ));
            },
        }
    }
}

proof fn lemma_char_place_skip(s: Seq<char>, t: Seq<char>, c: char, from: int, back: int)
    requires
        0 <= back <= from <= s.len(),
        t == s.skip(back),
    ensures
        char_place(t, c, from - back) == match char_place(s, c, from) {
            Some(at) => Some(at - back),
            None => None,
        },
        char_place(s, c, from) matches Some(at) ==> from <= at < s.len(),
    decreases s.len() - from,
{
    if from < s.len() && s[from] != c {
        lemma_char_place_skip(s, t, c, from + 1, back);
    }
}

/// A text is its lines: what stands before the first break is the first line, without a carriage
/// return at its end, and the rest has the others. A last line needs no break, and nothing is none.
pub proof fn law_lines_end_at_breaks(line: Seq<char>, rest: Seq<char>)
    requires
        forall|i: int| 0 <= i < line.len() ==> #[trigger] line[i] != '\n',
    ensures
        lines(line + seq!['\n'] + rest) == seq![
            if line.len() > 0 && line.last() == '\r' {
                line.drop_last()
            } else {
                line
            },
        ] + lines(rest),
        line.len() > 0 ==> lines(line) == seq![line],
        lines(seq![]) == Seq::<Seq<char>>::empty(),
{
    let s = line + seq!['\n'] + rest;
    let n = line.len() as int;
    assert forall|k: int| 0 <= k < n implies #[trigger] s[k] != '\n' by {
        assert(s[k] == line[k]);
    }
    lemma_char_place(s, '\n', 0, n);
    assert(s.subrange(0, n) =~= line);
    assert(s.skip(n + 1) =~= rest);
    lemma_lines_from_skip(s, rest, n + 1, n + 1);
    if line.len() > 0 {
        lemma_char_place(line, '\n', 0, n);
        assert(line.subrange(0, n) =~= line);
    }
}

/// A fingerprint is sixty-four hexadecimal digits.
pub proof fn law_fingerprints_are_hexadecimal(s: Seq<char>)
    ensures
        is_sha256(s) <==> s.len() == 64 && forall|i: int|
            0 <= i < s.len() ==> {
                let c = #[trigger] s[i];
                '0' <= c <= '9' || 'a' <= c <= 'f' || 'A' <= c <= 'F'
            },
{
}

/// The blanks of ASCII are the space and the controls from the tab to the carriage return; no
/// character that prints is one. Controls are what does not print.
pub proof fn law_plain_characters_are_classed(c: char)
    requires
        (c as u32) < 0x80,
    ensures
        is_space(c) <==> c == ' ' || '\t' <= c <= '\r',
        is_control(c) <==> c < ' ' || c as u32 == 0x7F,
        is_alnum(c) ==> !is_space(c) && !is_control(c),
        is_alnum(c) <==> '0' <= c <= '9' || 'a' <= c <= 'z' || 'A' <= c <= 'Z',
        char_bytes(c) == 1,
{
}

/// A text is short and plain exactly where it is within the bytes and holds no control.
pub proof fn law_plain_texts(s: Seq<char>, max: nat)
    ensures
        plain(s, max) <==> byte_len(s) <= max && forall|i: int|
            0 <= i < s.len() ==> !is_control(#[trigger] s[i]),
{
}

} // verus!
