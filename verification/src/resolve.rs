//! Identifier forms and the rules that resolve a short identifier.
//!
//! Epics and tasks are known by a ULID or by a short identifier: `E{n}` for
//! an epic and `E{n}-T{m}` for a task, letters in either case.

use vstd::prelude::*;

use crate::models::AddDependencyInput;
use crate::text::{all_digits, decimal, decimal_spec, digit_char, is_digit, push_char, push_str};

verus! {

/// The form of an identifier.
#[derive(Debug, Clone, Copy, PartialEq, Eq, Structural)]
pub enum IdKind {
    EpicShortId,
    TaskShortId,
    Ulid,
}

/// `c` in upper case when it is an ASCII lower-case letter.
pub open spec fn ascii_upper(c: char) -> char {
    if 'a' <= c <= 'z' {
        ((c as u32) - 32) as char
    } else {
        c
    }
}

/// `s` with its ASCII letters in upper case.
pub open spec fn upper_seq(s: Seq<char>) -> Seq<char> {
    s.map_values(|c: char| ascii_upper(c))
}

/// `rest` is `{digits}-T{digits}` (the `T` in either case).
pub open spec fn is_task_tail(rest: Seq<char>, k: int) -> bool {
    &&& 0 < k && k + 2 < rest.len()
    &&& rest[k] == '-'
    &&& ascii_upper(rest[k + 1]) == 'T'
    &&& all_digits(rest.take(k))
    &&& all_digits(rest.skip(k + 2))
}

/// The form of identifier `s`: `E{n}-T{m}` is a task short identifier,
/// `E{n}` an epic short identifier (the letters in either case, `n` and
/// `m` non-empty runs of decimal digits), anything else a ULID.
pub open spec fn classify_spec(s: Seq<char>) -> IdKind {
    if s.len() > 0 && ascii_upper(s[0]) == 'E' {
        let rest = s.skip(1);
        if exists|k: int| is_task_tail(rest, k) {
            IdKind::TaskShortId
        } else if all_digits(rest) {
            IdKind::EpicShortId
        } else {
            IdKind::Ulid
        }
    } else {
        IdKind::Ulid
    }
}

fn upper_char(c: char) -> (r: char)
    ensures
        r == ascii_upper(c),
{
    if 'a' <= c && c <= 'z' {
        let b: u8 = c as u8;
        assert(b == c as u32);
        ((b - 32) as char)
    } else {
        c
    }
}

fn is_ascii_digit(c: char) -> (r: bool)
    ensures
        r == crate::text::is_digit(c),
{
    '0' <= c && c <= '9'
}

/// Whether the characters of `s` from `from` up to `to` are a non-empty run
/// of decimal digits.
fn digits_between(s: &str, from: usize, to: usize) -> (r: bool)
    requires
        from <= to <= s@.len(),
    ensures
        r == all_digits(s@.subrange(from as int, to as int)),
{
    if from == to {
        return false;
    }
    let mut i = from;
    while i < to
        invariant
            from <= i <= to <= s@.len(),
            forall|j: int| from <= j < i ==> crate::text::is_digit(#[trigger] s@[j]),
        decreases to - i,
    {
        if !is_ascii_digit(s.get_char(i)) {
            assert(s@.subrange(from as int, to as int)[i - from] == s@[i as int]);
            return false;
        }
        i = i + 1;
    }
    assert forall|j: int| 0 <= j < to - from implies crate::text::is_digit(
        #[trigger] s@.subrange(from as int, to as int)[j],
    ) by {
        assert(s@.subrange(from as int, to as int)[j] == s@[from + j]);
    }
    true
}

/// Classify an identifier as an epic short identifier, a task short
/// identifier, or a ULID.
pub fn classify_id(input: &str) -> (r: IdKind)
    ensures
        r == classify_spec(input@),
{
    let n = input.unicode_len();
    if n == 0 || upper_char(input.get_char(0)) != 'E' {
        return IdKind::Ulid;
    }
    let ghost rest = input@.skip(1);
    // The first `-T` after the leading letter.
    let mut k: usize = 1;
    while k + 1 < n && !(input.get_char(k) == '-' && upper_char(input.get_char(k + 1)) == 'T')
        invariant
            1 <= k,
            k <= n - 1 || k == 1,
            n == input@.len(),
            n >= 1,
            rest == input@.skip(1),
            forall|j: int| 1 <= j < k ==> !(#[trigger] input@[j] == '-' && ascii_upper(input@[j + 1]) == 'T'),
        decreases n - k,
    {
        k = k + 1;
    }
    let found = k + 1 < n;
    if found {
        let left = digits_between(input, 1, k);
        let right = digits_between(input, k + 2, n);
        if left && right {
            proof {
                assert(rest.take(k - 1) =~= input@.subrange(1, k as int));
                assert(rest.skip(k + 1) =~= input@.subrange(k + 2, n as int));
                assert(is_task_tail(rest, k - 1));
            }
            return IdKind::TaskShortId;
        }
        proof {
            // The first `-T` is the only one that can follow a run of digits.
            assert forall|k2: int| !is_task_tail(rest, k2) by {
                if is_task_tail(rest, k2) {
                    if k2 + 1 < k {
                        assert(rest.take(k2)[k - 1] == input@[k as int]);
                        assert(!crate::text::is_digit(input@[k as int]));
                    } else if k2 + 1 > k {
                        assert(rest.take(k2)[k - 1] == input@[k as int]);
                    } else {
                        assert(rest.take(k - 1) =~= input@.subrange(1, k as int));
                        assert(rest.skip(k + 1) =~= input@.subrange(k + 2, n as int));
                    }
                }
            }
        }
    } else {
        proof {
            assert forall|k2: int| !is_task_tail(rest, k2) by {
                if is_task_tail(rest, k2) {
                    assert(input@[k2 + 1] == rest[k2]);
                }
            }
        }
    }
    if digits_between(input, 1, n) {
        proof {
            assert(rest =~= input@.subrange(1, n as int));
        }
        IdKind::EpicShortId
    } else {
        proof {
            assert(rest =~= input@.subrange(1, n as int));
        }
        IdKind::Ulid
    }
}

/// A short identifier in its stored form: ASCII letters in upper case.
pub fn normalize_short_id(s: &str) -> (r: String)
    ensures
        r@ == upper_seq(s@),
{
    let n = s.unicode_len();
    let mut r = String::new();
    let mut i: usize = 0;
    while i < n
        invariant
            n == s@.len(),
            i <= n,
            r@ == upper_seq(s@.take(i as int)),
        decreases n - i,
    {
        let c = upper_char(s.get_char(i));
        push_char(&mut r, c);
        proof {
            assert(s@.take(i + 1) =~= s@.take(i as int).push(s@[i as int]));
        }
        i = i + 1;
        assert(r@ =~= upper_seq(s@.take(i as int)));
    }
    assert(s@.take(n as int) =~= s@);
    r
}

/// The epic part `E{n}` of a task short identifier `E{n}-T{m}`, upper-cased.
pub open spec fn task_epic_part(s: Seq<char>) -> Seq<char> {
    let k = choose|k: int| is_task_tail(s.skip(1), k);
    upper_seq(s.take(k + 1))
}

/// The epic short identifier inside a task short identifier, in stored
/// form.
pub fn epic_part_of_task_id(s: &str) -> (r: String)
    requires
        classify_spec(s@) == IdKind::TaskShortId,
    ensures
        r@ == task_epic_part(s@),
{
    let ghost rest = s@.skip(1);
    let ghost k = choose|k: int| is_task_tail(rest, k);
    let n = s.unicode_len();
    let mut i: usize = 1;
    while i < n && s.get_char(i) != '-'
        invariant
            1 <= i <= k + 1,
            n == s@.len(),
            is_task_tail(rest, k),
            rest == s@.skip(1),
            forall|j: int| 1 <= j < i ==> s@[j] != '-',
        decreases n - i,
    {
        proof {
            if i == k + 1 {
                assert(s@[i as int] == rest[k]);
            } else {
                assert(rest.take(k)[i - 1] == s@[i as int]);
            }
        }
        i = i + 1;
    }
    proof {
        assert(s@[k + 1] == rest[k]);
        if (i as int) < k + 1 {
            assert(rest.take(k)[i - 1] == s@[i as int]);
        }
    }
    let head = crate::text::take_chars(s, i);
    normalize_short_id(head.as_str())
}

/// Why an identifier did not resolve.
#[derive(Debug, Clone, Copy, PartialEq, Eq, Structural)]
pub enum ResolveError {
    /// No item has the short identifier.
    NotFound,
    /// Several items, in different projects, have it.
    Ambiguous(usize),
}

/// The item a short identifier names, from the identifiers of the items
/// that carry it: the one when there is exactly one, else the error.
pub fn pick_unique(ids: Vec<String>) -> (r: Result<String, ResolveError>)
    ensures
        ids@.len() == 0 ==> r == Err::<String, ResolveError>(ResolveError::NotFound),
        ids@.len() == 1 ==> r == Ok::<String, ResolveError>(ids@[0]),
        ids@.len() > 1 ==> r == Err::<String, ResolveError>(ResolveError::Ambiguous(ids@.len() as usize)),
{
    let n = ids.len();
    if n == 0 {
        Err(ResolveError::NotFound)
    } else if n == 1 {
        let mut ids = ids;
        Ok(ids.remove(0))
    } else {
        Err(ResolveError::Ambiguous(n))
    }
}

/// Whether a dependency would make an item block itself.
pub fn is_self_reference(input: &AddDependencyInput) -> (r: bool)
    ensures
        r == (input.blocker_type == input.blocked_type && input.blocker_id@ == input.blocked_id@),
{
    input.blocker_type == input.blocked_type && crate::text::str_eq(
        input.blocker_id.as_str(),
        input.blocked_id.as_str(),
    )
}


/// The short identifier of the next epic of a project whose highest epic
/// number is `max_num`: `E{max_num + 1}`.
pub fn next_epic_short_id(max_num: u64) -> (r: String)
    requires
        max_num < u64::MAX,
    ensures
        r@ == seq!['E'] + decimal_spec((max_num + 1) as nat),
{
    let mut s = String::new();
    push_char(&mut s, 'E');
    let d = decimal(max_num + 1);
    push_str(&mut s, d.as_str());
    assert(s@ =~= seq!['E'] + decimal_spec((max_num + 1) as nat));
    s
}

/// The short identifier of the next task of the epic `epic_short` whose
/// highest task number is `max_num`: `{epic_short}-T{max_num + 1}`.
pub fn next_task_short_id(epic_short: &str, max_num: u64) -> (r: String)
    requires
        max_num < u64::MAX,
    ensures
        r@ == epic_short@ + seq!['-', 'T'] + decimal_spec((max_num + 1) as nat),
{
    let mut s = String::from_str(epic_short);
    push_char(&mut s, '-');
    push_char(&mut s, 'T');
    let d = decimal(max_num + 1);
    push_str(&mut s, d.as_str());
    assert(s@ =~= epic_short@ + seq!['-', 'T'] + decimal_spec((max_num + 1) as nat));
    s
}

/// Decimal representations are runs of digits.
pub proof fn lemma_decimal_digits(n: nat)
    ensures
        all_digits(decimal_spec(n)),
    decreases n,
{
    if n >= 10 {
        lemma_decimal_digits(n / 10);
        let p = decimal_spec(n / 10);
        assert forall|i: int| 0 <= i < p.push(digit_char((n % 10) as int)).len() implies is_digit(
            #[trigger] p.push(digit_char((n % 10) as int))[i],
        ) by {
            if i < p.len() {
                assert(p.push(digit_char((n % 10) as int))[i] == p[i]);
            }
        }
    }
}

/// The identifiers given to new epics and tasks are classified as epic and
/// task short identifiers.
pub proof fn lemma_new_short_ids_classified(n: nat, epic_short: Seq<char>)
    requires
        n >= 1,
    ensures
        classify_spec(seq!['E'] + decimal_spec(n)) == IdKind::EpicShortId,
        classify_spec(epic_short) == IdKind::EpicShortId ==> classify_spec(
            epic_short + seq!['-', 'T'] + decimal_spec(n),
        ) == IdKind::TaskShortId,
{
    lemma_decimal_digits(n);
    let d = decimal_spec(n);
    let e = seq!['E'] + d;
    assert(e.skip(1) =~= d);
    assert forall|k: int| !is_task_tail(e.skip(1), k) by {
        if is_task_tail(e.skip(1), k) {
            assert(is_digit(d[k]));
        }
    }
    if classify_spec(epic_short) == IdKind::EpicShortId {
        let t = epic_short + seq!['-', 'T'] + d;
        let rest = t.skip(1);
        let k = epic_short.len() - 1;
        assert(rest.take(k) =~= epic_short.skip(1));
        assert(rest.skip(k + 2) =~= d);
        assert(rest[k] == '-');
        assert(rest[k + 1] == 'T');
        assert(is_task_tail(rest, k));
        assert(t[0] == epic_short[0]);
    }
}

/// Taking the epic part of a new task's identifier gives back its epic's
/// identifier in stored form.
pub proof fn lemma_task_id_epic_part(epic_short: Seq<char>, n: nat)
    requires
        n >= 1,
        classify_spec(epic_short) == IdKind::EpicShortId,
    ensures
        task_epic_part(epic_short + seq!['-', 'T'] + decimal_spec(n)) == upper_seq(epic_short),
{
    lemma_new_short_ids_classified(n, epic_short);
    lemma_decimal_digits(n);
    let t = epic_short + seq!['-', 'T'] + decimal_spec(n);
    let rest = t.skip(1);
    let k0 = epic_short.len() - 1;
    let k = choose|k: int| is_task_tail(rest, k);
    assert(is_task_tail(rest, k0)) by {
        assert(rest.take(k0) =~= epic_short.skip(1));
        assert(rest.skip(k0 + 2) =~= decimal_spec(n));
        assert(rest[k0] == '-');
    }
    if k < k0 {
        assert(rest.take(k0)[k] == rest[k]);
        assert(is_digit(rest.take(k0)[k]));
    } else if k > k0 {
        assert(rest.take(k)[k0] == rest[k0]);
        assert(is_digit(rest.take(k)[k0]));
    }
    assert(t.take(k + 1) =~= epic_short);
}

} // verus!
