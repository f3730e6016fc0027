//! The log rotator's planning side: when an append rotates, and which
//! renames the rotation performs, in which order.
//!
//! A log target is a path together with a size threshold `max_bytes` and a
//! retention count `max_files` (the total number of slots in the chain,
//! the live file included). Rotation renames run in descending slot order:
//! for `i` from `max_files - 1` down to `1`, the source is the live path
//! when `i == 1` and `path.(i-1)` otherwise, and the target is `path.i`.
//! The descending order is what keeps a file from being overwritten before
//! it has been moved on.

use vstd::prelude::*;

verus! {

/// The decimal digit character for `d`.
pub open spec fn digit_char(d: nat) -> char {
    if d == 0 {
        '0'
    } else if d == 1 {
        '1'
    } else if d == 2 {
        '2'
    } else if d == 3 {
        '3'
    } else if d == 4 {
        '4'
    } else if d == 5 {
        '5'
    } else if d == 6 {
        '6'
    } else if d == 7 {
        '7'
    } else if d == 8 {
        '8'
    } else {
        '9'
    }
}

/// The decimal digits of `n`, most significant first, no leading zeros
/// (the single digit `0` for zero).
pub open spec fn decimal_digits(n: nat) -> Seq<char>
    decreases n,
{
    if n < 10 {
        seq![digit_char(n)]
    } else {
        decimal_digits(n / 10).push(digit_char(n % 10))
    }
}

/// The name of slot `i` of the chain rooted at `path`: `path.i`.
pub open spec fn slot_name_spec(path: Seq<char>, i: nat) -> Seq<char> {
    path + seq!['.'] + decimal_digits(i)
}

/// The name of the rename source for step `i`: the live path itself when
/// `i == 1`, the previous slot's name otherwise.
pub open spec fn rename_source_spec(path: Seq<char>, i: nat) -> Seq<char> {
    if i == 1 {
        path
    } else {
        slot_name_spec(path, (i - 1) as nat)
    }
}

/// Every number has at least one digit; a number of ten or more has at
/// least two.
pub proof fn lemma_decimal_digits_len(n: nat)
    ensures
        decimal_digits(n).len() >= 1,
        n >= 10 ==> decimal_digits(n).len() >= 2,
    decreases n,
{
    if n >= 10 {
        lemma_decimal_digits_len(n / 10);
    }
}

proof fn lemma_digit_char_injective(a: nat, b: nat)
    requires
        a < 10,
        b < 10,
        digit_char(a) == digit_char(b),
    ensures
        a == b,
{
}

/// Distinct numbers have distinct decimal digit strings.
pub proof fn lemma_decimal_digits_injective(n: nat, m: nat)
    requires
        decimal_digits(n) == decimal_digits(m),
    ensures
        n == m,
    decreases n,
{
    lemma_decimal_digits_len(n);
    lemma_decimal_digits_len(m);
    if n < 10 && m < 10 {
        assert(decimal_digits(n)[0] == digit_char(n));
        assert(decimal_digits(m)[0] == digit_char(m));
        lemma_digit_char_injective(n, m);
    } else if n >= 10 && m >= 10 {
        assert(decimal_digits(n).last() == digit_char(n % 10));
        assert(decimal_digits(m).last() == digit_char(m % 10));
        lemma_digit_char_injective(n % 10, m % 10);
        assert(decimal_digits(n).drop_last() =~= decimal_digits(n / 10));
        assert(decimal_digits(m).drop_last() =~= decimal_digits(m / 10));
        lemma_decimal_digits_injective(n / 10, m / 10);
    } else {
        assert(decimal_digits(n).len() != decimal_digits(m).len());
    }
}

/// Distinct slots are distinct files: a slot's name never equals the live
/// path, and two different slots never share a name. The rename plan
/// therefore never aims two steps at the same file.
pub proof fn lemma_slot_names_distinct(path: Seq<char>, i: nat, j: nat)
    requires
        i != j,
    ensures
        slot_name_spec(path, i) != path,
        slot_name_spec(path, i) != slot_name_spec(path, j),
{
    lemma_decimal_digits_len(i);
    lemma_decimal_digits_len(j);
    assert(slot_name_spec(path, i).len() > path.len());
    if slot_name_spec(path, i) == slot_name_spec(path, j) {
        let a = slot_name_spec(path, i);
        assert(decimal_digits(i) =~= a.subrange(path.len() + 1 as int, a.len() as int));
        assert(decimal_digits(j) =~= a.subrange(path.len() + 1 as int, a.len() as int));
        lemma_decimal_digits_injective(i, j);
    }
}

/// One-character string for a decimal digit.
fn digit_str(d: u32) -> (s: &'static str)
    requires
        d < 10,
    ensures
        s@ == seq![digit_char(d as nat)],
{
    let s: &'static str = if d == 0 {
        "0"
    } else if d == 1 {
        "1"
    } else if d == 2 {
        "2"
    } else if d == 3 {
        "3"
    } else if d == 4 {
        "4"
    } else if d == 5 {
        "5"
    } else if d == 6 {
        "6"
    } else if d == 7 {
        "7"
    } else if d == 8 {
        "8"
    } else {
        "9"
    };
    proof {
        reveal_strlit("0");
        reveal_strlit("1");
        reveal_strlit("2");
        reveal_strlit("3");
        reveal_strlit("4");
        reveal_strlit("5");
        reveal_strlit("6");
        reveal_strlit("7");
        reveal_strlit("8");
        reveal_strlit("9");
    }
    assert(s@ =~= seq![digit_char(d as nat)]);
    s
}

/// `n` written in decimal.
pub fn decimal_string(n: u32) -> (s: String)
    ensures
        s@ == decimal_digits(n as nat),
    decreases n,
{
    if n < 10 {
        String::from_str(digit_str(n))
    } else {
        let mut s = decimal_string(n / 10);
        s.append(digit_str(n % 10));
        assert(s@ =~= decimal_digits((n / 10) as nat).push(digit_char((n % 10) as nat)));
        s
    }
}

/// The name of slot `i` of the chain rooted at `path`.
pub fn slot_name(path: &str, i: u32) -> (s: String)
    ensures
        s@ == slot_name_spec(path@, i as nat),
{
    let mut s = String::from_str(path);
    s.append(".");
    let digits = decimal_string(i);
    s.append(digits.as_str());
    proof {
        reveal_strlit(".");
    }
    assert(s@ =~= slot_name_spec(path@, i as nat));
    s
}

/// One planned rename: move the file at `from` to `to`, overwriting `to`,
/// provided the file at `from` exists; otherwise do nothing.
pub struct RenameStep {
    pub from: String,
    pub to: String,
}

/// Rotation is performed before an append exactly when the live file
/// exists and holds at least `max_bytes` bytes.
pub fn needs_rotation(live_exists: bool, live_size: u64, max_bytes: u64) -> (b: bool)
    ensures
        b == (live_exists && live_size >= max_bytes),
{
    live_exists && live_size >= max_bytes
}

/// The rotation's rename plan for the chain rooted at `path`: one step per
/// slot `i` from `max_files - 1` down to `1`, in that (mandatory) order,
/// each moving the previous slot's file into slot `i`. Empty when
/// `max_files <= 1`: such a chain has no backup slots and rotation renames
/// nothing.
pub fn rotation_renames(path: &str, max_files: u32) -> (r: Vec<RenameStep>)
    ensures
        max_files >= 1 ==> r.len() == max_files - 1,
        max_files == 0 ==> r.len() == 0,
        forall|j: int|
            0 <= j < r.len() ==> (#[trigger] r[j].from)@ == rename_source_spec(
                path@,
                (max_files - 1 - j) as nat,
            ),
        forall|j: int|
            0 <= j < r.len() ==> (#[trigger] r[j].to)@ == slot_name_spec(
                path@,
                (max_files - 1 - j) as nat,
            ),
{
    let mut r: Vec<RenameStep> = Vec::new();
    if max_files == 0 {
        return r;
    }
    let mut i: u32 = max_files - 1;
    while i >= 1
        invariant
            i <= max_files - 1,
            r.len() == max_files - 1 - i,
            forall|j: int|
                0 <= j < r.len() ==> (#[trigger] r[j].from)@ == rename_source_spec(
                    path@,
                    (max_files - 1 - j) as nat,
                ),
            forall|j: int|
                0 <= j < r.len() ==> (#[trigger] r[j].to)@ == slot_name_spec(
                    path@,
                    (max_files - 1 - j) as nat,
                ),
        decreases i,
    {
        let from = if i == 1 {
            String::from_str(path)
        } else {
            slot_name(path, i - 1)
        };
        let to = slot_name(path, i);
        r.push(RenameStep { from, to });
        i -= 1;
    }
    r
}

} // verus!
