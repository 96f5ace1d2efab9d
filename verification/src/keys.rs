//! Construction of the storage keys of the local durable store.
//!
//! A confirmed note is stored under `note_<identifier>`; an identifier-less
//! draft is stored under `note_draft_<timestamp>`.

use vstd::prelude::*;

verus! {

/// The decimal digit `d` as a character.
pub open spec fn digit_char(d: nat) -> char {
    if d == 0 {
        '0'
    } else if d == 1 {
        '1'
    } else if d == 2 {
        '2'
    } else if d == 3 {
        '3'
    } else if d == 4 {
        '4'
    } else if d == 5 {
        '5'
    } else if d == 6 {
        '6'
    } else if d == 7 {
        '7'
    } else if d == 8 {
        '8'
    } else {
        '9'
    }
}

/// The usual decimal rendering of `n`, most significant digit first.
pub open spec fn spec_decimal(n: nat) -> Seq<char>
    decreases n,
{
    if n < 10 {
        seq![digit_char(n)]
    } else {
        spec_decimal(n / 10) + seq![digit_char(n % 10)]
    }
}

/// The key of a confirmed note with identifier `id`.
pub open spec fn note_key_view(id: Seq<char>) -> Seq<char> {
    "note_"@ + id
}

/// The key of a draft persisted at time `now`.
pub open spec fn draft_key_view(now: u64) -> Seq<char> {
    "note_draft_"@ + spec_decimal(now as nat)
}

fn digit_str(d: u64) -> (r: &'static str)
    requires
        d < 10,
    ensures
        r@ == seq![digit_char(d as nat)],
{
    let r = match d {
        0 => "0",
        1 => "1",
        2 => "2",
        3 => "3",
        4 => "4",
        5 => "5",
        6 => "6",
        7 => "7",
        8 => "8",
        _ => "9",
    };
    proof {
        reveal_strlit("0");
        reveal_strlit("1");
        reveal_strlit("2");
        reveal_strlit("3");
        reveal_strlit("4");
        reveal_strlit("5");
        reveal_strlit("6");
        reveal_strlit("7");
        reveal_strlit("8");
        reveal_strlit("9");
        assert(r@ =~= seq![digit_char(d as nat)]);
    }
    r
}

/// Renders `n` in decimal.
pub fn u64_to_string(n: u64) -> (r: String)
    ensures
        r@ == spec_decimal(n as nat),
    decreases n,
{
    if n < 10 {
        digit_str(n).to_owned()
    } else {
        let mut s = u64_to_string(n / 10);
        s.append(digit_str(n % 10));
        s
    }
}

/// Builds the storage key of a confirmed note from its identifier.
pub fn note_key(id: &String) -> (r: String)
    ensures
        r@ == note_key_view(id@),
{
    let mut s = "note_".to_owned();
    s.append(id.as_str());
    s
}

/// Builds the storage key of a draft persisted at time `now`.
pub fn draft_key(now: u64) -> (r: String)
    ensures
        r@ == draft_key_view(now),
{
    let mut s = "note_draft_".to_owned();
    let digits = u64_to_string(now);
    s.append(digits.as_str());
    s
}

} // verus!
