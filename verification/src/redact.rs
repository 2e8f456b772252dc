//! Keeping the password out of the log.
use crate::secret::{secret_ref_view, Secret};
use crate::text::{
    chars_occur_at, contains_text, lossy_text, occurs_at, text_from_utf8_lossy, to_chars, utf8,
};
use vstd::prelude::*;

verus! {

/// What stands in the log in place of the password.
pub const REDACTED: &'static str = "********";

/// Whether bytes stand among others at a place.
pub open spec fn bytes_occur_at(bytes: Seq<u8>, needle: Seq<u8>, at: int) -> bool {
    0 <= at <= bytes.len() - needle.len() && bytes.subrange(at, at + needle.len()) == needle
}

/// Whether bytes stand somewhere among others.
pub open spec fn bytes_occur(bytes: Seq<u8>, needle: Seq<u8>) -> bool {
    exists|at: int| #[trigger] bytes_occur_at(bytes, needle, at)
}

/// `memchr::memmem::find`: where bytes first stand among others.
pub assume_specification[ memchr::memmem::find ](haystack: &[u8], needle: &[u8]) -> (at: Option<
    usize,
>)
    ensures
        match at {
            Some(at) => bytes_occur_at(haystack@, needle@, at as int) && forall|before: int|
                before < at ==> !#[trigger] bytes_occur_at(haystack@, needle@, before),
            None => !bytes_occur(haystack@, needle@),
        },
;

/// A text with each occurrence of another replaced, from left to right.
pub open spec fn replaced(s: Seq<char>, needle: Seq<char>, with: Seq<char>) -> Seq<char>
    decreases s.len(),
{
    if needle.len() == 0 || s.len() == 0 {
        s
    } else if occurs_at(s, needle, 0) {
        with + replaced(s.skip(needle.len() as int), needle, with)
    } else {
        seq![s[0]] + replaced(s.drop_first(), needle, with)
    }
}

/// What is written to the log in place of bytes. Bytes without the password are written as
/// they are, whether they are text or not.
pub open spec fn redacted(bytes: Seq<u8>, password: Option<Seq<char>>) -> Seq<u8> {
    match password {
        Some(password) => if password.len() > 0 && bytes_occur(bytes, utf8(password)) {
            utf8(replaced(lossy_text(bytes), password, REDACTED@))
        } else {
            bytes
        },
        None => bytes,
    }
}

/// Replace each occurrence of the password in a text, from left to right.
pub fn redact_text(text: &str, password: &str) -> (hidden: String)
    ensures
        hidden@ == replaced(text@, password@, REDACTED@),
{
    let chars = to_chars(text);
    let needle = to_chars(password);
    if needle.len() == 0 {
        return text.to_owned();
    }
    let mut hidden = String::new();
    let mut i: usize = 0;
    proof {
        assert(chars@.skip(0) =~= chars@);
        assert(hidden@ + replaced(chars@, needle@, REDACTED@) =~= replaced(
            chars@,
            needle@,
            REDACTED@,
        ));
    }
    while i < chars.len()
        invariant
            i <= chars@.len(),
            needle@.len() > 0,
            hidden@ + replaced(chars@.skip(i as int), needle@, REDACTED@) == replaced(
                chars@,
                needle@,
                REDACTED@,
            ),
        decreases chars@.len() - i,
    {
        let ghost before = hidden@;
        let ghost rest = chars@.skip(i as int);
        let found = chars_occur_at(&chars, &needle, i);
        proof {
            assert(found == occurs_at(rest, needle@, 0)) by {
                if i + needle@.len() <= chars@.len() {
                    assert(rest.subrange(0, needle@.len() as int) =~= chars@.subrange(
                        i as int,
                        i + needle@.len(),
                    ));
                }
            }
        }
        if found {
            hidden.append(REDACTED);
            i = i + needle.len();
            proof {
                let after = replaced(chars@.skip(i as int), needle@, REDACTED@);
                assert(rest.skip(needle@.len() as int) =~= chars@.skip(i as int));
                assert(before + REDACTED@ + after =~= before + (REDACTED@ + after));
            }
        } else {
            hidden.push(chars[i]);
            i = i + 1;
            proof {
                let after = replaced(chars@.skip(i as int), needle@, REDACTED@);
                assert(rest.drop_first() =~= chars@.skip(i as int));
                assert(before.push(rest[0]) + after =~= before + (seq![rest[0]] + after));
            }
        }
    }
    proof {
        assert(chars@.skip(i as int) =~= Seq::empty());
        assert(hidden@ + Seq::<char>::empty() =~= hidden@);
    }
    hidden
}

/// What is written to the log in place of bytes.
pub fn redact(bytes: &[u8], password: Option<&Secret>) -> (written: Vec<u8>)
    ensures
        written@ == redacted(bytes@, secret_ref_view(password)),
        vstd::utf8::valid_utf8(bytes@) && secret_ref_view(password) is Some && secret_ref_view(
            password,
        )->0.len() > 0 && bytes_occur(bytes@, utf8(secret_ref_view(password)->0)) ==> written@
            == utf8(
            replaced(
                vstd::utf8::decode_utf8(bytes@),
                secret_ref_view(password)->0,
                REDACTED@,
            ),
        ),
{
    let password = match password {
        Some(password) => password.expose_secret(),
        None => {
            return copy_bytes(bytes);
        },
    };
    let needle = password.as_bytes();
    proof {
        lemma_utf8_empty(password@);
    }
    if needle.len() == 0 || bytes.len() < needle.len() {
        return copy_bytes(bytes);
    }
    if memchr::memmem::find(bytes, needle).is_none() {
        return copy_bytes(bytes);
    }
    let text = text_from_utf8_lossy(bytes);
    let hidden = redact_text(&text, password);
    copy_bytes(hidden.as_str().as_bytes())
}

/// A copy of bytes.
fn copy_bytes(bytes: &[u8]) -> (copy: Vec<u8>)
    ensures
        copy@ == bytes@,
{
    let mut copy: Vec<u8> = Vec::new();
    let mut i: usize = 0;
    while i < bytes.len()
        invariant
            i <= bytes@.len(),
            copy@ =~= bytes@.take(i as int),
        decreases bytes@.len() - i,
    {
        copy.push(bytes[i]);
        i = i + 1;
    }
    assert(bytes@.take(i as int) =~= bytes@);
    copy
}

/// Only the empty text is encoded by no bytes.
proof fn lemma_utf8_empty(s: Seq<char>)
    ensures
        utf8(s).len() == 0 <==> s.len() == 0,
{
    if s.len() > 0 {
        vstd::utf8::encode_utf8_first_scalar(s);
    }
}

// Laws.

/// The place of the first replacement: up to it the text is as it was.
proof fn lemma_first_replacement(s: Seq<char>, needle: Seq<char>) -> (at: int)
    requires
        needle.len() > 0,
    ensures
        0 <= at <= s.len(),
        at <= replaced(s, needle, REDACTED@).len(),
        s.take(at) == replaced(s, needle, REDACTED@).take(at),
        at == replaced(s, needle, REDACTED@).len() || occurs_at(
            replaced(s, needle, REDACTED@),
            REDACTED@,
            at,
        ),
    decreases s.len(),
{
    let r = replaced(s, needle, REDACTED@);
    if s.len() == 0 || occurs_at(s, needle, 0) {
        assert(s.take(0) =~= r.take(0));
        if s.len() > 0 {
            assert(r.subrange(0, REDACTED@.len() as int) =~= REDACTED@);
        }
        0
    } else {
        let rest = s.drop_first();
        let after = replaced(rest, needle, REDACTED@);
        let at = lemma_first_replacement(rest, needle);
        assert forall|j: int| 0 <= j < at + 1 implies s[j] == r[j] by {
            if j > 0 {
                assert(rest.take(at)[j - 1] == after.take(at)[j - 1]);
            }
        }
        assert(s.take(at + 1) =~= r.take(at + 1));
        if at < after.len() {
            let n = REDACTED@.len() as int;
            assert(r.subrange(at + 1, at + 1 + n) =~= after.subrange(at, at + n));
        }
        at + 1
    }
}

/// Whether a password can be told from what stands in its place: it neither begins nor ends
/// with an asterisk, and what stands in its place is no part of it.
pub open spec fn tells_apart(password: Seq<char>) -> bool {
    password.len() > 0 && password[0] != '*' && password.last() != '*' && !contains_text(
        password,
        REDACTED@,
    )
}

/// The password stands at no place of a text that it was replaced in.
proof fn lemma_hidden_at(s: Seq<char>, password: Seq<char>, at: int)
    requires
        tells_apart(password),
    ensures
        !occurs_at(replaced(s, password, REDACTED@), password, at),
    decreases s.len(),
{
    reveal_strlit("********");
    let r = replaced(s, password, REDACTED@);
    let n = password.len() as int;
    if occurs_at(r, password, at) {
        assert forall|j: int| 0 <= j < n implies r[at + j] == #[trigger] password[j] by {
            assert(r.subrange(at, at + n)[j] == r[at + j]);
        }
        if s.len() > 0 {
            if occurs_at(s, password, 0) {
                let rest = s.skip(n);
                let after = replaced(rest, password, REDACTED@);
                if at < 8 {
                    assert(r[at] == REDACTED@[at]);
                    assert(r[at + 0] == password[0]);
                } else {
                    lemma_hidden_at(rest, password, at - 8);
                    assert(after.subrange(at - 8, at - 8 + n) =~= r.subrange(at, at + n));
                }
            } else {
                let rest = s.drop_first();
                let after = replaced(rest, password, REDACTED@);
                if at > 0 {
                    lemma_hidden_at(rest, password, at - 1);
                    assert(after.subrange(at - 1, at - 1 + n) =~= r.subrange(at, at + n));
                } else {
                    let first = lemma_first_replacement(s, password);
                    if first >= n {
                        assert(s.subrange(0, n) =~= s.take(first).subrange(0, n));
                        assert(r.subrange(0, n) =~= r.take(first).subrange(0, n));
                    } else if first + 8 <= n {
                        assert(password.subrange(first, first + 8) =~= r.subrange(first, first + 8));
                        assert(occurs_at(password, REDACTED@, first));
                    } else {
                        assert(r.subrange(first, first + 8)[n - 1 - first] == '*');
                        assert(r[at + (n - 1)] == password[n - 1]);
                    }
                }
            }
        }
    }
}

/// A text whose bytes begin another's bytes begins the other.
proof fn lemma_bytes_begin(s: Seq<char>, start: Seq<char>)
    requires
        utf8(start).len() <= utf8(s).len(),
        utf8(s).take(utf8(start).len() as int) == utf8(start),
    ensures
        start.len() <= s.len(),
        s.take(start.len() as int) == start,
    decreases start.len(),
{
    if start.len() == 0 {
        assert(s.take(0) =~= start);
    } else {
        let a = utf8(start);
        let b = utf8(s);
        lemma_utf8_empty(start);
        lemma_utf8_empty(s);
        vstd::utf8::encode_utf8_first_scalar(start);
        vstd::utf8::encode_utf8_first_scalar(s);
        let n = vstd::utf8::encode_scalar(start[0] as u32).len() as int;
        assert forall|j: int| 0 <= j < a.len() implies a[j] == #[trigger] b[j] by {
            assert(b.take(a.len() as int)[j] == b[j]);
        }
        assert(a[0] == b[0]);
        assert(n <= a.len());
        assert(start[0] as u32 == s[0] as u32);
        vstd::utf8::char_u32_cast(start[0], start[0] as u32);
        vstd::utf8::char_u32_cast(s[0], s[0] as u32);
        assert(s[0] == start[0]);
        let more = utf8(start.drop_first());
        let rest = utf8(s.drop_first());
        assert(a =~= vstd::utf8::encode_scalar(start[0] as u32) + more);
        assert(b =~= vstd::utf8::encode_scalar(s[0] as u32) + rest);
        assert(rest.take(more.len() as int) =~= more) by {
            assert forall|j: int| 0 <= j < more.len() implies rest[j] == more[j] by {
                assert(more[j] == a[n + j]);
                assert(rest[j] == b[n + j]);
            }
        }
        lemma_bytes_begin(s.drop_first(), start.drop_first());
        assert(s.take(start.len() as int) =~= start) by {
            assert forall|j: int| 0 < j < start.len() implies s[j] == start[j] by {
                assert(s.drop_first().take(start.len() - 1)[j - 1] == start.drop_first()[j - 1]);
            }
        }
    }
}

/// A text whose bytes stand among another's bytes stands in the other.
proof fn lemma_bytes_stand_for_text(s: Seq<char>, needle: Seq<char>, at: int)
    requires
        needle.len() > 0,
        bytes_occur_at(utf8(s), utf8(needle), at),
    ensures
        contains_text(s, needle),
{
    broadcast use vstd::utf8::encode_utf8_valid_utf8;

    let bytes = utf8(s);
    let sought = utf8(needle);
    let n = sought.len() as int;
    lemma_utf8_empty(needle);
    vstd::utf8::is_char_boundary_start_end_of_seq(sought);
    vstd::utf8::is_char_boundary_iff_not_is_continuation_byte(sought, 0);
    assert(bytes[at] == bytes.subrange(at, at + n)[0]);
    vstd::utf8::is_char_boundary_iff_not_is_continuation_byte(bytes, at);
    vstd::utf8::valid_utf8_split(bytes, at);
    vstd::utf8::decode_utf8_split(bytes, at);
    vstd::utf8::encode_utf8_decode_utf8(s);
    let left = vstd::utf8::decode_utf8(bytes.subrange(0, at));
    let tail = bytes.subrange(at, bytes.len() as int);
    let right = vstd::utf8::decode_utf8(tail);
    vstd::utf8::decode_utf8_encode_utf8(tail);
    assert(tail.take(n) =~= bytes.subrange(at, at + n));
    lemma_bytes_begin(right, needle);
    let place = left.len() as int;
    assert(s == left + right);
    assert(s.subrange(place, place + needle.len()) =~= right.take(needle.len() as int));
    assert(occurs_at(s, needle, place));
}

/// The password is never written: its bytes stand nowhere in what is, where it can be told
/// from what stands in its place.
pub proof fn law_password_is_hidden(bytes: Seq<u8>, password: Seq<char>)
    requires
        tells_apart(password),
    ensures
        !bytes_occur(redacted(bytes, Some(password)), utf8(password)),
{
    if bytes_occur(bytes, utf8(password)) {
        let text = replaced(lossy_text(bytes), password, REDACTED@);
        assert forall|at: int| !bytes_occur_at(utf8(text), utf8(password), at) by {
            if bytes_occur_at(utf8(text), utf8(password), at) {
                lemma_bytes_stand_for_text(text, password, at);
                let place = choose|place: int| occurs_at(text, password, place);
                lemma_hidden_at(lossy_text(bytes), password, place);
            }
        }
    }
}

/// What does not hold the password is written byte for byte, whether it is text or not.
pub proof fn law_other_bytes_pass(bytes: Seq<u8>, password: Seq<char>)
    requires
        !bytes_occur(bytes, utf8(password)),
    ensures
        redacted(bytes, Some(password)) == bytes,
{
}

/// A text in which the password stands nowhere is left as it is.
pub proof fn law_a_text_without_the_password_is_left(s: Seq<char>, needle: Seq<char>, with: Seq<char>)
    requires
        !contains_text(s, needle),
    ensures
        replaced(s, needle, with) == s,
    decreases s.len(),
{
    if needle.len() > 0 && s.len() > 0 {
        assert(!occurs_at(s, needle, 0));
        let rest = s.drop_first();
        if contains_text(rest, needle) {
            let i = choose|i: int| occurs_at(rest, needle, i);
            assert(s.subrange(i + 1, i + 1 + needle.len()) =~= rest.subrange(i, i + needle.len()));
            assert(occurs_at(s, needle, i + 1));
        }
        law_a_text_without_the_password_is_left(rest, needle, with);
        assert(seq![s[0]] + rest =~= s);
    }
}

/// What stands in front of the first occurrence stays, the occurrence is replaced, and behind
/// it the next one is looked for.
pub proof fn law_each_occurrence_is_replaced(
    before: Seq<char>,
    needle: Seq<char>,
    after: Seq<char>,
    with: Seq<char>,
)
    requires
        needle.len() > 0,
        forall|i: int|
            0 <= i < before.len() ==> !#[trigger] occurs_at(before + needle + after, needle, i),
    ensures
        replaced(before + needle + after, needle, with) == before + with + replaced(
            after,
            needle,
            with,
        ),
    decreases before.len(),
{
    let s = before + needle + after;
    if before.len() == 0 {
        assert(s.subrange(0, needle.len() as int) =~= needle);
        assert(s.skip(needle.len() as int) =~= after);
        assert(before + with + replaced(after, needle, with) =~= with + replaced(
            after,
            needle,
            with,
        ));
    } else {
        assert(!occurs_at(s, needle, 0));
        let less = before.drop_first();
        let rest = less + needle + after;
        assert(s.drop_first() =~= rest);
        assert forall|i: int| 0 <= i < less.len() implies !#[trigger] occurs_at(
            rest,
            needle,
            i,
        ) by {
            if occurs_at(rest, needle, i) {
                assert(s.subrange(i + 1, i + 1 + needle.len()) =~= rest.subrange(
                    i,
                    i + needle.len(),
                ));
                assert(occurs_at(s, needle, i + 1));
            }
        }
        law_each_occurrence_is_replaced(less, needle, after, with);
        let tail = replaced(after, needle, with);
        assert(seq![s[0]] + (less + with + tail) =~= before + with + tail);
    }
}

} // verus!
