//! The file that names the running process, so that no second one starts beside it.
use crate::text::{
    contains_text, decimal_text, digit_char, occurs_at, signed_decimal, signed_decimal_text,
    to_chars, trim, trimmed,
};
use vstd::prelude::*;

verus! {

/// Whether a character is a decimal digit.
pub open spec fn is_digit(c: char) -> bool {
    '0' <= c && c <= '9'
}

/// The number that decimal digits write.
pub open spec fn digits_value(digits: Seq<char>) -> nat
    decreases digits.len(),
{
    if digits.len() == 0 {
        0
    } else {
        10 * digits_value(digits.drop_last()) + ((digits.last() as u32) - ('0' as u32)) as nat
    }
}

/// The digits of a number that may have a plus sign.
pub open spec fn unsigned_digits(s: Seq<char>) -> Seq<char> {
    if s.len() > 0 && s[0] == '+' {
        s.drop_first()
    } else {
        s
    }
}

/// The process that a file names: a positive number, with white space around it.
pub open spec fn named_process(contents: Seq<char>) -> Option<int> {
    let digits = unsigned_digits(trimmed(contents));
    if digits.len() > 0 && (forall|i: int| 0 <= i < digits.len() ==> is_digit(#[trigger] digits[i]))
        && 0 < digits_value(digits) <= i32::MAX {
        Some(digits_value(digits) as int)
    } else {
        None
    }
}

/// More digits never make a number smaller.
proof fn lemma_value_grows(digits: Seq<char>, n: int)
    requires
        0 <= n <= digits.len(),
        forall|i: int| 0 <= i < digits.len() ==> is_digit(#[trigger] digits[i]),
    ensures
        digits_value(digits.take(n)) <= digits_value(digits),
    decreases digits.len() - n,
{
    if n == digits.len() {
        assert(digits.take(n) =~= digits);
    } else {
        lemma_value_grows(digits, n + 1);
        assert(digits.take(n + 1).drop_last() =~= digits.take(n));
        assert(is_digit(digits[n]));
    }
}

/// The process that a file names.
pub fn recorded_pid(contents: &str) -> (pid: Option<i32>)
    ensures
        match pid {
            Some(pid) => named_process(contents@) == Some(pid as int),
            None => named_process(contents@) is None,
        },
{
    let text = trim(contents);
    let chars = to_chars(&text);
    let start: usize = if chars.len() > 0 && chars[0] == '+' {
        1
    } else {
        0
    };
    let ghost digits = unsigned_digits(text@);
    assert(digits =~= chars@.skip(start as int));
    if start == chars.len() {
        return None;
    }
    let mut value: u64 = 0;
    let mut i: usize = start;
    proof {
        assert(digits.take(0) =~= Seq::empty());
    }
    while i < chars.len()
        invariant
            start <= i <= chars@.len(),
            start < chars@.len(),
            digits == chars@.skip(start as int),
            digits == unsigned_digits(trimmed(contents@)),
            forall|j: int| 0 <= j < i - start ==> is_digit(#[trigger] digits[j]),
            value == digits_value(digits.take(i - start)),
            value <= i32::MAX,
        decreases chars@.len() - i,
    {
        let c = chars[i];
        assert(c == digits[i - start]);
        if c < '0' || c > '9' {
            assert(!is_digit(digits[i - start]));
            return None;
        }
        proof {
            assert(digits.take(i - start + 1).drop_last() =~= digits.take(i - start));
            assert(digits.take(i - start + 1).last() == c);
        }
        value = value * 10 + (c as u32 - '0' as u32) as u64;
        if value > i32::MAX as u64 {
            proof {
                if forall|j: int| 0 <= j < digits.len() ==> is_digit(#[trigger] digits[j]) {
                    lemma_value_grows(digits, i - start + 1);
                }
            }
            return None;
        }
        i = i + 1;
    }
    proof {
        assert(digits.take(i - start) =~= digits);
    }
    if value == 0 {
        return None;
    }
    Some(value as i32)
}

/// What is said where the named process runs.
pub open spec fn running_text(path: Seq<char>, pid: int) -> Seq<char> {
    "PID file "@ + path + " refers to running process "@ + signed_decimal_text(pid)
        + "; refusing to start a second instance"@
}

/// Whether kei may start: it may not beside the process that the file names. A file that names
/// no process, or one that does not run, is written over.
pub fn check_recorded_pid(path: &str, pid: Option<i32>, alive: bool) -> (result: Result<(), String>)
    ensures
        match result {
            Ok(()) => pid is None || !alive,
            Err(message) => pid is Some && alive && message@ == running_text(
                path@,
                pid->0 as int,
            ),
        },
{
    match pid {
        Some(pid) => {
            if alive {
                let mut message = "PID file ".to_owned();
                message.append(path);
                message.append(" refers to running process ");
                message.append(&signed_decimal(pid as i64));
                message.append("; refusing to start a second instance");
                return Err(message);
            }
            Ok(())
        },
        None => Ok(()),
    }
}

/// A written number is read back.
proof fn lemma_decimal_read(n: nat)
    ensures
        decimal_text(n).len() > 0,
        forall|i: int| 0 <= i < decimal_text(n).len() ==> is_digit(#[trigger] decimal_text(n)[i]),
        digits_value(decimal_text(n)) == n,
    decreases n,
{
    let text = decimal_text(n);
    if n < 10 {
        assert(text.drop_last() =~= Seq::empty());
        assert(digits_value(text.drop_last()) == 0);
        assert(text.last() == digit_char(n));
        assert((digit_char(n) as u32) - ('0' as u32) == n);
    } else {
        lemma_decimal_read(n / 10);
        let front = decimal_text(n / 10);
        assert(text.drop_last() =~= front);
        assert(text.last() == digit_char(n % 10));
        assert forall|i: int| 0 <= i < text.len() implies is_digit(#[trigger] text[i]) by {
            if i < front.len() {
                assert(is_digit(front[i]));
            }
        }
    }
}

/// The process that wrote its number into the file is the one that the file names.
pub proof fn law_written_process_is_read_back(pid: nat)
    requires
        0 < pid <= i32::MAX,
    ensures
        named_process(decimal_text(pid)) == Some(pid as int),
{
    let text = decimal_text(pid);
    lemma_decimal_read(pid);
    assert(is_digit(text[0]));
    assert(is_digit(text[text.len() - 1]));
    assert(trimmed(text) == text);
}

/// White space around the number, and a plus sign in front of it, do not matter; anything else
/// does, and so does a number that no process can have.
pub proof fn law_only_positive_numbers_name_processes(contents: Seq<char>, digits: Seq<char>)
    requires
        digits.len() > 0,
        digits[0] != '+',
        trimmed(contents) == digits || trimmed(contents) == seq!['+'] + digits,
    ensures
        named_process(contents) is Some <==> (forall|i: int|
            0 <= i < digits.len() ==> is_digit(#[trigger] digits[i])) && 0 < digits_value(digits)
            <= i32::MAX,
        named_process(contents) is Some ==> named_process(contents)->0 == digits_value(digits),
        forall|c: char| #[trigger] is_digit(c) <==> '0' <= c <= '9',
{
    assert((seq!['+'] + digits).drop_first() =~= digits);
    assert(unsigned_digits(trimmed(contents)) == digits);
}

/// A file with nothing but white space in it names no process.
pub proof fn law_a_blank_file_names_no_process(contents: Seq<char>)
    requires
        trimmed(contents).len() == 0,
    ensures
        named_process(contents) is None,
{
}

/// What is said of a process that runs names the file and the process.
pub proof fn law_a_running_process_is_named(path: Seq<char>, pid: int)
    ensures
        contains_text(running_text(path, pid), path),
        contains_text(running_text(path, pid), "process "@ + signed_decimal_text(pid)),
{
    reveal_strlit(" refers to running process ");
    reveal_strlit("process ");
    let text = running_text(path, pid);
    let at = "PID file "@.len() as int;
    assert(text.subrange(at, at + path.len()) =~= path);
    assert(occurs_at(text, path, at));
    let named = "process "@ + signed_decimal_text(pid);
    let from = at + path.len() + 19;
    assert(text.subrange(from, from + named.len()) =~= named);
    assert(occurs_at(text, named, from));
}

} // verus!
