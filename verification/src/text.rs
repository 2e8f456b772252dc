//! Text helpers with contracts over sequences of characters.
//!
//! A `&str` or a `String` is read through its view, a `Seq<char>`. Each helper
//! says what it computes on that view, so the modules above it never have to
//! reason about bytes.
use vstd::prelude::*;

verus! {

broadcast use vstd::string::group_string_axioms;

/// `String::push` of std: appends one character to the end of the string.
pub assume_specification[ String::push ](s: &mut String, c: char)
    ensures
        final(s)@ == old(s)@.push(c),
;

/// Bytes as a text, with what is no UTF-8 replaced.
pub uninterp spec fn lossy_text(bytes: Seq<u8>) -> Seq<char>;

/// `String::from_utf8_lossy`: the bytes as a text. Bytes that are UTF-8 are the text that they
/// encode; of others, how much of them each replacement character stands for is left unsaid.
#[verifier::external_body]
pub(crate) fn text_from_utf8_lossy(bytes: &[u8]) -> (text: String)
    ensures
        text@ == lossy_text(bytes@),
        vstd::utf8::valid_utf8(bytes@) ==> text@ == vstd::utf8::decode_utf8(bytes@),
{
    String::from_utf8_lossy(bytes).into_owned()
}

/// `needle` stands in `s` at position `i`.
pub open spec fn occurs_at(s: Seq<char>, needle: Seq<char>, i: int) -> bool {
    &&& 0 <= i
    &&& i + needle.len() <= s.len()
    &&& s.subrange(i, i + needle.len()) == needle
}

/// `needle` stands somewhere in `s`.
pub open spec fn contains_text(s: Seq<char>, needle: Seq<char>) -> bool {
    exists|i: int| occurs_at(s, needle, i)
}

/// A character with an ASCII capital letter replaced by its small letter.
pub open spec fn ascii_lower(c: char) -> char {
    if 'A' <= c && c <= 'Z' {
        ((c as u8) + 32) as char
    } else {
        c
    }
}

/// A text with every ASCII capital letter replaced by its small letter.
pub open spec fn ascii_lowered(s: Seq<char>) -> Seq<char> {
    s.map_values(|c: char| ascii_lower(c))
}

/// The characters that carry Unicode's `White_Space` property.
pub open spec fn is_white_space(c: char) -> bool {
    let n = c as u32;
    ||| 0x9 <= n <= 0xd
    ||| n == 0x20
    ||| n == 0x85
    ||| n == 0xa0
    ||| n == 0x1680
    ||| 0x2000 <= n <= 0x200a
    ||| n == 0x2028
    ||| n == 0x2029
    ||| n == 0x202f
    ||| n == 0x205f
    ||| n == 0x3000
}

/// `s` without the white space in front of it.
pub open spec fn trimmed_start(s: Seq<char>) -> Seq<char>
    decreases s.len(),
{
    if s.len() > 0 && is_white_space(s[0]) {
        trimmed_start(s.drop_first())
    } else {
        s
    }
}

/// `s` without the white space behind it.
pub open spec fn trimmed_end(s: Seq<char>) -> Seq<char>
    decreases s.len(),
{
    if s.len() > 0 && is_white_space(s.last()) {
        trimmed_end(s.drop_last())
    } else {
        s
    }
}

/// `s` without the white space around it.
pub open spec fn trimmed(s: Seq<char>) -> Seq<char> {
    trimmed_end(trimmed_start(s))
}

/// The decimal digit of a number below ten.
pub open spec fn digit_char(d: nat) -> char {
    (('0' as u8) + d) as char
}

/// A number written in decimal, without leading zeros.
pub open spec fn decimal_text(n: nat) -> Seq<char>
    decreases n,
{
    if n < 10 {
        seq![digit_char(n)]
    } else {
        decimal_text(n / 10).push(digit_char(n % 10))
    }
}

/// An integer written in decimal, with a minus sign where it is negative.
pub open spec fn signed_decimal_text(n: int) -> Seq<char> {
    if n < 0 {
        seq!['-'] + decimal_text((-n) as nat)
    } else {
        decimal_text(n as nat)
    }
}

/// `true` or `false`, written out.
pub open spec fn bool_text(b: bool) -> Seq<char> {
    if b {
        "true"@
    } else {
        "false"@
    }
}

/// The views of a list of texts.
pub open spec fn text_views(list: Seq<String>) -> Seq<Seq<char>> {
    list.map_values(|s: String| s@)
}

/// The view of an optional text.
pub open spec fn option_view(s: Option<String>) -> Option<Seq<char>> {
    match s {
        Some(s) => Some(s@),
        None => None,
    }
}

/// The characters of a text.
pub fn to_chars(s: &str) -> (chars: Vec<char>)
    ensures
        chars@ == s@,
{
    let mut chars: Vec<char> = Vec::new();
    for c in it: s.chars()
        invariant
            chars@ == it.seq().take(it.index() as int),
            it.seq() == s@,
    {
        chars.push(c);
    }
    chars
}

/// The text made of the characters from `from` up to `to`.
pub fn from_chars(chars: &Vec<char>, from: usize, to: usize) -> (s: String)
    requires
        from <= to <= chars.len(),
    ensures
        s@ == chars@.subrange(from as int, to as int),
{
    let mut s = String::new();
    let mut i: usize = from;
    while i < to
        invariant
            from <= i <= to <= chars.len(),
            s@ == chars@.subrange(from as int, i as int),
        decreases to - i,
    {
        s.push(chars[i]);
        assert(chars@.subrange(from as int, i + 1) =~= chars@.subrange(from as int, i as int).push(
            chars@[i as int],
        ));
        i = i + 1;
    }
    s
}

/// Whether `needle` stands in `chars` at position `at`.
pub fn chars_occur_at(chars: &Vec<char>, needle: &Vec<char>, at: usize) -> (found: bool)
    ensures
        found == occurs_at(chars@, needle@, at as int),
{
    if at > chars.len() || needle.len() > chars.len() - at {
        return false;
    }
    let mut i: usize = 0;
    while i < needle.len()
        invariant
            at + needle.len() <= chars.len(),
            i <= needle.len(),
            forall|j: int| 0 <= j < i ==> chars@[at + j] == needle@[j],
        decreases needle.len() - i,
    {
        if chars[at + i] != needle[i] {
            assert(chars@.subrange(at as int, at + needle@.len())[i as int] != needle@[i as int]);
            return false;
        }
        i = i + 1;
    }
    assert(chars@.subrange(at as int, at + needle@.len()) =~= needle@);
    true
}

/// Whether two texts hold the same characters.
pub fn str_eq(a: &str, b: &str) -> (equal: bool)
    ensures
        equal == (a@ == b@),
{
    let left = to_chars(a);
    let right = to_chars(b);
    if left.len() != right.len() {
        return false;
    }
    let equal = chars_occur_at(&left, &right, 0);
    assert(left@.subrange(0, left@.len() as int) =~= left@);
    equal
}

/// Whether `s` begins with `prefix`.
pub fn starts_with(s: &str, prefix: &str) -> (yes: bool)
    ensures
        yes == prefix@.is_prefix_of(s@),
{
    let chars = to_chars(s);
    let start = to_chars(prefix);
    chars_occur_at(&chars, &start, 0)
}

/// Whether `s` ends with `suffix`.
pub fn ends_with(s: &str, suffix: &str) -> (yes: bool)
    ensures
        yes == suffix@.is_suffix_of(s@),
{
    let chars = to_chars(s);
    let end = to_chars(suffix);
    if end.len() > chars.len() {
        return false;
    }
    chars_occur_at(&chars, &end, chars.len() - end.len())
}

/// Whether `needle` stands somewhere in `s`.
pub fn contains(s: &str, needle: &str) -> (yes: bool)
    ensures
        yes == contains_text(s@, needle@),
{
    let chars = to_chars(s);
    let wanted = to_chars(needle);
    if wanted.len() > chars.len() {
        return false;
    }
    let last: usize = chars.len() - wanted.len();
    let mut i: usize = 0;
    while i <= last
        invariant
            chars@ == s@,
            wanted@ == needle@,
            last + wanted.len() == chars.len(),
            i <= last + 1,
            forall|j: int| 0 <= j < i ==> !occurs_at(s@, needle@, j),
        decreases last + 1 - i,
    {
        if chars_occur_at(&chars, &wanted, i) {
            return true;
        }
        if i == last {
            return false;
        }
        i = i + 1;
    }
    false
}

/// A character with an ASCII capital letter replaced by its small letter.
pub fn lower_char(c: char) -> (lower: char)
    ensures
        lower == ascii_lower(c),
{
    if 'A' <= c && c <= 'Z' {
        (c as u8 + 32) as char
    } else {
        c
    }
}

/// `s` with every ASCII capital letter replaced by its small letter.
pub fn to_ascii_lowercase(s: &str) -> (lower: String)
    ensures
        lower@ == ascii_lowered(s@),
{
    let chars = to_chars(s);
    let mut lower = String::new();
    let mut i: usize = 0;
    while i < chars.len()
        invariant
            chars@ == s@,
            i <= chars.len(),
            lower@ =~= ascii_lowered(s@).take(i as int),
        decreases chars.len() - i,
    {
        lower.push(lower_char(chars[i]));
        i = i + 1;
    }
    lower
}

/// Whether two texts are the same up to the case of ASCII letters.
pub fn eq_ignore_ascii_case(a: &str, b: &str) -> (equal: bool)
    ensures
        equal == (ascii_lowered(a@) == ascii_lowered(b@)),
{
    let left = to_ascii_lowercase(a);
    let right = to_ascii_lowercase(b);
    str_eq(left.as_str(), right.as_str())
}

/// Whether `c` carries Unicode's `White_Space` property.
pub fn is_space(c: char) -> (yes: bool)
    ensures
        yes == is_white_space(c),
{
    let n: u32 = c as u32;
    (0x9 <= n && n <= 0xd) || n == 0x20 || n == 0x85 || n == 0xa0 || n == 0x1680 || (0x2000 <= n
        && n <= 0x200a) || n == 0x2028 || n == 0x2029 || n == 0x202f || n == 0x205f || n == 0x3000
}

/// `s` without the white space around it.
pub fn trim(s: &str) -> (t: String)
    ensures
        t@ == trimmed(s@),
{
    let chars = to_chars(s);
    let mut from: usize = 0;
    assert(chars@.skip(0) =~= chars@);
    while from < chars.len() && is_space(chars[from])
        invariant
            from <= chars.len(),
            trimmed_start(chars@) == trimmed_start(chars@.skip(from as int)),
        decreases chars.len() - from,
    {
        assert(chars@.skip(from as int).drop_first() =~= chars@.skip(from + 1));
        from = from + 1;
    }
    let ghost rest = chars@.skip(from as int);
    assert(trimmed_start(chars@) == rest);
    let mut to: usize = chars.len();
    assert(chars@.subrange(from as int, to as int) =~= rest);
    while to > from && is_space(chars[to - 1])
        invariant
            from <= to <= chars.len(),
            trimmed_end(rest) == trimmed_end(chars@.subrange(from as int, to as int)),
        decreases to,
    {
        let ghost now = chars@.subrange(from as int, to as int);
        assert(now.last() == chars@[to - 1]);
        assert(now.drop_last() =~= chars@.subrange(from as int, to - 1));
        to = to - 1;
    }
    from_chars(&chars, from, to)
}

/// A number written in decimal.
pub fn decimal_wide(n: u128) -> (s: String)
    ensures
        s@ == decimal_text(n as nat),
    decreases n,
{
    if n < 10 {
        let mut s = String::new();
        s.push((48u8 + n as u8) as char);
        assert(s@ =~= decimal_text(n as nat));
        s
    } else {
        let mut s = decimal_wide(n / 10);
        s.push((48u8 + (n % 10) as u8) as char);
        s
    }
}

/// A number that fits in `u64`, written in decimal.
pub fn decimal(n: u64) -> (s: String)
    ensures
        s@ == decimal_text(n as nat),
{
    decimal_wide(n as u128)
}

/// An integer written in decimal.
pub fn signed_decimal(n: i64) -> (s: String)
    ensures
        s@ == signed_decimal_text(n as int),
{
    if n >= 0 {
        decimal(n as u64)
    } else {
        let magnitude: u64 = (-(n as i128)) as u64;
        let mut s = String::new();
        s.push('-');
        let digits = decimal(magnitude);
        s.append(digits.as_str());
        assert(s@ =~= seq!['-'] + decimal_text((-n) as nat));
        s
    }
}

/// A number of things that fits in `usize`, written in decimal.
pub fn decimal_usize(n: usize) -> (s: String)
    ensures
        s@ == decimal_text(n as nat),
{
    decimal(n as u64)
}

/// `true` or `false`, written out.
pub fn bool_string(b: bool) -> (s: String)
    ensures
        s@ == bool_text(b),
{
    if b {
        "true".to_owned()
    } else {
        "false".to_owned()
    }
}

/// A text as bytes of UTF-8.
pub open spec fn utf8(s: Seq<char>) -> Seq<u8> {
    vstd::utf8::encode_utf8(s)
}

/// The longest beginning of `bytes` that ends between two characters and is no
/// longer than `max`.
pub open spec fn floor_boundary(bytes: Seq<u8>, max: int) -> int
    decreases max,
{
    if max >= bytes.len() {
        bytes.len() as int
    } else if max <= 0 || vstd::utf8::is_char_boundary(bytes, max) {
        max
    } else {
        floor_boundary(bytes, max - 1)
    }
}

/// The longest beginning of `s` of at most `max_bytes` bytes of UTF-8 that splits no
/// character.
pub fn truncate_str(s: &str, max_bytes: usize) -> (head: &str)
    ensures
        utf8(head@) == utf8(s@).take(
            floor_boundary(utf8(s@), max_bytes as int),
        ),
{
    broadcast use vstd::utf8::encode_utf8_valid_utf8;
    broadcast use vstd::utf8::is_char_boundary_start_end_of_seq;

    let bytes = s.as_bytes();
    if max_bytes >= bytes.len() {
        assert(utf8(s@).take(utf8(s@).len() as int) =~= utf8(s@));
        return s;
    }
    let mut end: usize = max_bytes;
    while end > 0 && !s.is_char_boundary(end)
        invariant
            bytes@ == utf8(s@),
            end < bytes.len(),
            floor_boundary(utf8(s@), max_bytes as int) == floor_boundary(
                utf8(s@),
                end as int,
            ),
        decreases end,
    {
        end = end - 1;
    }
    let parts = s.split_at(end);
    parts.0
}

/// `a` stands no later than `b` in the order of their characters.
pub open spec fn text_le(a: Seq<char>, b: Seq<char>) -> bool
    decreases a.len(),
{
    if a.len() == 0 {
        true
    } else if b.len() == 0 {
        false
    } else if a[0] != b[0] {
        a[0] < b[0]
    } else {
        text_le(a.drop_first(), b.drop_first())
    }
}

/// The order of texts is total.
pub proof fn lemma_text_le_total(a: Seq<char>, b: Seq<char>)
    ensures
        text_le(a, b) || text_le(b, a),
    decreases a.len(),
{
    if a.len() > 0 && b.len() > 0 && a[0] == b[0] {
        lemma_text_le_total(a.drop_first(), b.drop_first());
    }
}

/// Two texts, neither of which stands before the other, are the same.
pub proof fn lemma_text_le_antisymmetric(a: Seq<char>, b: Seq<char>)
    requires
        text_le(a, b),
        text_le(b, a),
    ensures
        a == b,
    decreases a.len(),
{
    if a.len() > 0 && b.len() > 0 {
        lemma_text_le_antisymmetric(a.drop_first(), b.drop_first());
        assert(a =~= seq![a[0]] + a.drop_first());
        assert(b =~= seq![b[0]] + b.drop_first());
    } else {
        assert(a =~= b);
    }
}

/// The order of texts is transitive.
pub proof fn lemma_text_le_transitive(a: Seq<char>, b: Seq<char>, c: Seq<char>)
    requires
        text_le(a, b),
        text_le(b, c),
    ensures
        text_le(a, c),
    decreases a.len(),
{
    if a.len() > 0 && b.len() > 0 && c.len() > 0 && a[0] == b[0] && b[0] == c[0] {
        lemma_text_le_transitive(a.drop_first(), b.drop_first(), c.drop_first());
    }
}

/// Whether `a` stands no later than `b` in the order of their characters.
pub fn str_le(a: &str, b: &str) -> (yes: bool)
    ensures
        yes == text_le(a@, b@),
{
    let left = to_chars(a);
    let right = to_chars(b);
    let mut i: usize = 0;
    proof {
        assert(a@.skip(0) =~= a@);
        assert(b@.skip(0) =~= b@);
    }
    while i < left.len()
        invariant
            left@ == a@,
            right@ == b@,
            i <= left.len(),
            i <= right.len(),
            text_le(a@, b@) == text_le(a@.skip(i as int), b@.skip(i as int)),
        decreases left.len() - i,
    {
        if i >= right.len() {
            return false;
        }
        if left[i] != right[i] {
            return left[i] < right[i];
        }
        proof {
            assert(a@.skip(i as int).drop_first() =~= a@.skip(i + 1));
            assert(b@.skip(i as int).drop_first() =~= b@.skip(i + 1));
        }
        i = i + 1;
    }
    true
}

/// The last place at or before `from` at which `needle` stands in `s`.
pub open spec fn last_occurrence_from(s: Seq<char>, needle: Seq<char>, from: int) -> Option<int>
    decreases from + 1,
{
    if from < 0 {
        None
    } else if occurs_at(s, needle, from) {
        Some(from)
    } else {
        last_occurrence_from(s, needle, from - 1)
    }
}

/// The last place at which `needle` stands in `s`.
pub open spec fn last_occurrence(s: Seq<char>, needle: Seq<char>) -> Option<int> {
    last_occurrence_from(s, needle, s.len() as int)
}

/// A place that the search from the end gives is one at which the needle stands.
pub proof fn lemma_last_occurrence(s: Seq<char>, needle: Seq<char>, from: int)
    ensures
        match last_occurrence_from(s, needle, from) {
            Some(i) => occurs_at(s, needle, i) && i <= from && forall|j: int|
                i < j <= from ==> !occurs_at(s, needle, j),
            None => forall|j: int| 0 <= j <= from ==> !occurs_at(s, needle, j),
        },
    decreases from + 1,
{
    if from >= 0 && !occurs_at(s, needle, from) {
        lemma_last_occurrence(s, needle, from - 1);
    }
}

/// The last place at which `needle` stands in `chars`.
pub fn rfind(chars: &Vec<char>, needle: &Vec<char>) -> (at: Option<usize>)
    ensures
        match at {
            Some(i) => last_occurrence(chars@, needle@) == Some(i as int) && i + needle.len()
                <= chars.len(),
            None => last_occurrence(chars@, needle@) is None,
        },
{
    let mut i: usize = chars.len();
    loop
        invariant
            i <= chars.len(),
            last_occurrence(chars@, needle@) == last_occurrence_from(chars@, needle@, i as int),
        decreases i,
    {
        if chars_occur_at(chars, needle, i) {
            return Some(i);
        }
        if i == 0 {
            assert(last_occurrence_from(chars@, needle@, -1) is None);
            return None;
        }
        i = i - 1;
    }
}

/// A text parted at the last place at which `needle` stands in it.
pub open spec fn parted_last(s: Seq<char>, needle: Seq<char>) -> Option<(Seq<char>, Seq<char>)> {
    match last_occurrence(s, needle) {
        Some(i) => Some((s.take(i), s.skip(i + needle.len()))),
        None => None,
    }
}

/// The view of an optional pair of texts.
pub open spec fn option_pair_view(pair: Option<(String, String)>) -> Option<
    (Seq<char>, Seq<char>),
> {
    match pair {
        Some((a, b)) => Some((a@, b@)),
        None => None,
    }
}

/// Part a text at the last place at which `needle` stands in it.
pub fn rsplit_once(s: &str, needle: &str) -> (parts: Option<(String, String)>)
    ensures
        option_pair_view(parts) == parted_last(s@, needle@),
{
    let chars = to_chars(s);
    let searched = to_chars(needle);
    match rfind(&chars, &searched) {
        Some(i) => {
            let head = from_chars(&chars, 0, i);
            let tail = from_chars(&chars, i + searched.len(), chars.len());
            proof {
                assert(head@ =~= s@.take(i as int));
                assert(tail@ =~= s@.skip(i + needle@.len()));
            }
            Some((head, tail))
        },
        None => None,
    }
}

/// A text is parted at the last place at which another stands in it.
pub proof fn law_a_text_is_parted_at_the_last_place(s: Seq<char>, needle: Seq<char>, at: int)
    requires
        occurs_at(s, needle, at),
        forall|i: int| at < i ==> !#[trigger] occurs_at(s, needle, i),
    ensures
        parted_last(s, needle) == Some((s.take(at), s.skip(at + needle.len()))),
{
    lemma_last_occurrence(s, needle, s.len() as int);
}

/// A text in which another stands nowhere is not parted.
pub proof fn law_a_text_without_the_mark_is_not_parted(s: Seq<char>, needle: Seq<char>)
    requires
        !contains_text(s, needle),
    ensures
        parted_last(s, needle) is None,
{
    lemma_last_occurrence(s, needle, s.len() as int);
}

/// Trimming takes white space off both ends and leaves the rest: what remains is a part of the
/// text, does not begin or end with white space, and all that was taken is white space.
pub proof fn law_trimming_takes_white_space_alone(s: Seq<char>)
    ensures
        exists|from: int, to: int|
            {
                &&& 0 <= from <= to <= s.len()
                &&& trimmed(s) == #[trigger] s.subrange(from, to)
                &&& forall|i: int| 0 <= i < from || to <= i < s.len() ==> is_white_space(s[i])
            },
        trimmed(s).len() > 0 ==> !is_white_space(trimmed(s)[0]) && !is_white_space(
            trimmed(s).last(),
        ),
{
    let rest = trimmed_start(s);
    lemma_trimmed_start(s);
    lemma_trimmed_end(rest);
    let from = s.len() - rest.len();
    let to = from + trimmed(s).len();
    assert(s.subrange(from, to) =~= trimmed(s));
    assert forall|i: int| 0 <= i < from || to <= i < s.len() implies is_white_space(s[i]) by {
        if to <= i {
            assert(rest[i - from] == s[i]);
        }
    }
}

/// What is left after the white space in front was taken off.
proof fn lemma_trimmed_start(s: Seq<char>)
    ensures
        trimmed_start(s).len() <= s.len(),
        trimmed_start(s) == s.skip(s.len() - trimmed_start(s).len()),
        forall|i: int| 0 <= i < s.len() - trimmed_start(s).len() ==> is_white_space(#[trigger] s[i]),
        trimmed_start(s).len() > 0 ==> !is_white_space(trimmed_start(s)[0]),
    decreases s.len(),
{
    if s.len() > 0 && is_white_space(s[0]) {
        let rest = s.drop_first();
        lemma_trimmed_start(rest);
        let left = trimmed_start(s);
        assert(s.skip(s.len() - left.len()) =~= rest.skip(rest.len() - left.len()));
        assert forall|i: int| 0 <= i < s.len() - left.len() implies is_white_space(
            #[trigger] s[i],
        ) by {
            if i > 0 {
                assert(rest[i - 1] == s[i]);
            }
        }
    } else {
        assert(s.skip(0) =~= s);
    }
}

/// What is left after the white space behind was taken off.
proof fn lemma_trimmed_end(s: Seq<char>)
    ensures
        trimmed_end(s).len() <= s.len(),
        trimmed_end(s) == s.take(trimmed_end(s).len() as int),
        forall|i: int| trimmed_end(s).len() <= i < s.len() ==> is_white_space(#[trigger] s[i]),
        trimmed_end(s).len() > 0 ==> !is_white_space(trimmed_end(s).last()),
    decreases s.len(),
{
    if s.len() > 0 && is_white_space(s.last()) {
        let rest = s.drop_last();
        lemma_trimmed_end(rest);
        let left = trimmed_end(s);
        assert(s.take(left.len() as int) =~= rest.take(left.len() as int));
        assert forall|i: int| left.len() <= i < s.len() implies is_white_space(#[trigger] s[i]) by {
            if i < rest.len() {
                assert(rest[i] == s[i]);
            }
        }
    } else {
        assert(s.take(s.len() as int) =~= s);
    }
}

/// The number that a text of decimal digits stands for.
pub open spec fn digits_value(s: Seq<char>) -> int
    decreases s.len(),
{
    if s.len() == 0 {
        0
    } else {
        digits_value(s.drop_last()) * 10 + (s.last() as int - '0' as int)
    }
}

/// A number written in decimal is made of digits, has no needless zero in front, and stands
/// for the number.
pub proof fn law_decimal_text_stands_for_its_number(n: nat)
    ensures
        digits_value(decimal_text(n)) == n,
        decimal_text(n).len() > 0,
        forall|i: int| 0 <= i < decimal_text(n).len() ==> '0' <= #[trigger] decimal_text(n)[i] <= '9',
        decimal_text(n)[0] == '0' ==> n == 0,
    decreases n,
{
    reveal_with_fuel(digits_value, 2);
    if n >= 10 {
        law_decimal_text_stands_for_its_number(n / 10);
        assert(decimal_text(n).drop_last() =~= decimal_text(n / 10));
    }
}

/// A number below zero is written as a minus sign in front of what it lacks to zero, any other
/// without a sign.
pub proof fn law_signed_decimal_text_stands_for_its_number(n: int)
    ensures
        n < 0 ==> signed_decimal_text(n)[0] == '-' && digits_value(
            signed_decimal_text(n).drop_first(),
        ) == -n,
        n >= 0 ==> digits_value(signed_decimal_text(n)) == n && signed_decimal_text(n)[0] != '-',
{
    if n < 0 {
        law_decimal_text_stands_for_its_number((-n) as nat);
        assert(signed_decimal_text(n).drop_first() =~= decimal_text((-n) as nat));
    } else {
        law_decimal_text_stands_for_its_number(n as nat);
    }
}

/// Lower case changes the capital letters of ASCII to their small ones, one for one, and
/// nothing else.
pub proof fn law_lower_case_changes_capitals_alone(s: Seq<char>)
    ensures
        ascii_lowered(s).len() == s.len(),
        forall|i: int|
            0 <= i < s.len() ==> if 'A' <= s[i] <= 'Z' {
                #[trigger] ascii_lowered(s)[i] as int - 'a' as int == s[i] as int - 'A' as int
            } else {
                ascii_lowered(s)[i] == s[i]
            },
{
}

/// Texts are ordered by the first character in which they differ, and a text stands before
/// those that it begins.
pub proof fn law_the_first_difference_decides(a: Seq<char>, b: Seq<char>, i: int)
    requires
        0 <= i <= a.len(),
        i <= b.len(),
        a.take(i) == b.take(i),
    ensures
        i < a.len() && i < b.len() && a[i] != b[i] ==> (text_le(a, b) <==> a[i] < b[i]),
        i == a.len() ==> text_le(a, b),
        i == b.len() && i < a.len() ==> !text_le(a, b),
    decreases i,
{
    if i > 0 {
        assert(a.take(i)[0] == a[0] && b.take(i)[0] == b[0]);
        let x = a.drop_first();
        let y = b.drop_first();
        assert(x.take(i - 1) =~= a.take(i).drop_first());
        assert(y.take(i - 1) =~= b.take(i).drop_first());
        law_the_first_difference_decides(x, y, i - 1);
        assert(text_le(a, b) == text_le(x, y));
    }
}

/// Bytes are cut at the last place up to the limit that lies between two characters.
pub proof fn law_the_last_boundary_is_cut_at(bytes: Seq<u8>, max: int)
    requires
        0 <= max,
    ensures
        max >= bytes.len() ==> floor_boundary(bytes, max) == bytes.len(),
        max < bytes.len() ==> {
            let at = floor_boundary(bytes, max);
            &&& 0 <= at <= max
            &&& at == 0 || vstd::utf8::is_char_boundary(bytes, at)
            &&& forall|i: int| at < i <= max ==> !#[trigger] vstd::utf8::is_char_boundary(bytes, i)
        },
    decreases max,
{
    if max < bytes.len() && max > 0 && !vstd::utf8::is_char_boundary(bytes, max) {
        law_the_last_boundary_is_cut_at(bytes, max - 1);
    }
}

/// White space is what Unicode says it is: six characters of ASCII, and nineteen others.
pub proof fn law_white_space_is_unicodes(c: char)
    ensures
        c as int <= 0x7f ==> (is_white_space(c) <==> c == ' ' || c == '\t' || c == '\n' || c == '\r'
            || c as int == 0xb || c as int == 0xc),
        c as int > 0x7f ==> (is_white_space(c) <==> c as int == 0x85 || c as int == 0xa0 || c as int
            == 0x1680 || 0x2000 <= c as int <= 0x200a || c as int == 0x2028 || c as int == 0x2029
            || c as int == 0x202f || c as int == 0x205f || c as int == 0x3000),
{
}

} // verus!
