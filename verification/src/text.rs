//! Decimal rendering of numbers and the labels used in event texts.

use vstd::prelude::*;

use crate::utils::Position;
use crate::world::ResourceKind;

verus! {

/// The decimal digit character for `d < 10`.
pub open spec fn digit_char(d: nat) -> char {
    if d == 0 {
        '0'
    } else if d == 1 {
        '1'
    } else if d == 2 {
        '2'
    } else if d == 3 {
        '3'
    } else if d == 4 {
        '4'
    } else if d == 5 {
        '5'
    } else if d == 6 {
        '6'
    } else if d == 7 {
        '7'
    } else if d == 8 {
        '8'
    } else {
        '9'
    }
}

/// The decimal rendering of a natural number, without leading zeros.
pub open spec fn decimal(n: nat) -> Seq<char>
    decreases n,
{
    if n < 10 {
        seq![digit_char(n)]
    } else {
        decimal(n / 10) + seq![digit_char(n % 10)]
    }
}

/// The decimal rendering of an integer, with a leading `-` when negative.
pub open spec fn signed_decimal(v: int) -> Seq<char> {
    if v < 0 {
        seq!['-'] + decimal((-v) as nat)
    } else {
        decimal(v as nat)
    }
}

/// `(x, y)` rendered as in the event texts.
pub open spec fn coordinates(p: Position) -> Seq<char> {
    "("@ + signed_decimal(p.x as int) + ", "@ + signed_decimal(p.y as int) + ")"@
}

/// The French label of a resource kind used in event texts.
pub open spec fn resource_label_spec(kind: ResourceKind) -> Seq<char> {
    match kind {
        ResourceKind::Energy => "energie"@,
        ResourceKind::Crystal => "cristal"@,
    }
}

/// The French label of a resource kind used in event texts.
pub fn resource_label(kind: ResourceKind) -> (s: &'static str)
    ensures
        s@ == resource_label_spec(kind),
{
    match kind {
        ResourceKind::Energy => "energie",
        ResourceKind::Crystal => "cristal",
    }
}

/// Appends one decimal digit.
fn push_digit(s: &mut String, d: u64)
    requires
        d < 10,
    ensures
        final(s)@ == old(s)@ + seq![digit_char(d as nat)],
{
    proof {
        reveal_strlit("0");
        reveal_strlit("1");
        reveal_strlit("2");
        reveal_strlit("3");
        reveal_strlit("4");
        reveal_strlit("5");
        reveal_strlit("6");
        reveal_strlit("7");
        reveal_strlit("8");
        reveal_strlit("9");
    }
    if d == 0 {
        s.append("0");
    } else if d == 1 {
        s.append("1");
    } else if d == 2 {
        s.append("2");
    } else if d == 3 {
        s.append("3");
    } else if d == 4 {
        s.append("4");
    } else if d == 5 {
        s.append("5");
    } else if d == 6 {
        s.append("6");
    } else if d == 7 {
        s.append("7");
    } else if d == 8 {
        s.append("8");
    } else {
        s.append("9");
    }
}

/// Appends the decimal rendering of `n`.
pub fn push_decimal(s: &mut String, n: u64)
    ensures
        final(s)@ == old(s)@ + decimal(n as nat),
    decreases n,
{
    if n >= 10 {
        push_decimal(s, n / 10);
        push_digit(s, n % 10);
        assert(final(s)@ =~= old(s)@ + decimal(n as nat));
    } else {
        push_digit(s, n);
    }
}

/// Appends the decimal rendering of `v`, with a leading `-` when negative.
pub fn push_signed(s: &mut String, v: i64)
    requires
        v > i64::MIN,
    ensures
        final(s)@ == old(s)@ + signed_decimal(v as int),
{
    if v < 0 {
        proof {
            reveal_strlit("-");
        }
        s.append("-");
        push_decimal(s, (-v) as u64);
        assert(final(s)@ =~= old(s)@ + signed_decimal(v as int));
    } else {
        push_decimal(s, v as u64);
    }
}

/// Appends `(x, y)`.
pub fn push_coordinates(s: &mut String, p: Position)
    ensures
        final(s)@ == old(s)@ + coordinates(p),
{
    s.append("(");
    push_signed(s, p.x as i64);
    s.append(", ");
    push_signed(s, p.y as i64);
    s.append(")");
    assert(final(s)@ =~= old(s)@ + coordinates(p));
}

/// `pattern` occurs in `text` starting at index `i`.
pub open spec fn occurs_at(text: Seq<char>, pattern: Seq<char>, i: int) -> bool {
    &&& 0 <= i
    &&& i + pattern.len() <= text.len()
    &&& forall|k: int| 0 <= k < pattern.len() ==> #[trigger] text[i + k] == pattern[k]
}

/// `pattern` occurs somewhere in `text`.
pub open spec fn contains_text(text: Seq<char>, pattern: Seq<char>) -> bool {
    exists|i: int| occurs_at(text, pattern, i)
}

/// The characters of `s`, in order.
pub fn chars_of(s: &str) -> (v: Vec<char>)
    ensures
        v@ == s@,
{
    let n = s.unicode_len();
    let mut v: Vec<char> = Vec::new();
    let mut i: usize = 0;
    while i < n
        invariant
            n == s@.len(),
            i <= n,
            v@ == s@.take(i as int),
        decreases n - i,
    {
        v.push(s.get_char(i));
        i = i + 1;
        assert(v@ =~= s@.take(i as int));
    }
    assert(s@.take(n as int) =~= s@);
    v
}

/// Whether `pattern` occurs in `text` at index `i`.
fn occurs_at_exec(text: &Vec<char>, pattern: &Vec<char>, i: usize) -> (b: bool)
    requires
        i + pattern.len() <= text.len(),
    ensures
        b == occurs_at(text@, pattern@, i as int),
{
    let mut k: usize = 0;
    while k < pattern.len()
        invariant
            i + pattern.len() <= text.len(),
            k <= pattern.len(),
            forall|j: int| 0 <= j < k ==> #[trigger] text@[i + j] == pattern@[j],
        decreases pattern.len() - k,
    {
        if text[i + k] != pattern[k] {
            assert(text@[i + k as int] != pattern@[k as int]);
            return false;
        }
        k = k + 1;
    }
    true
}

/// Whether `pattern` occurs somewhere in `text`.
pub fn text_contains(text: &Vec<char>, pattern: &Vec<char>) -> (b: bool)
    ensures
        b == contains_text(text@, pattern@),
{
    if pattern.len() > text.len() {
        return false;
    }
    let last = text.len() - pattern.len();
    let mut i: usize = 0;
    while i <= last
        invariant
            last + pattern.len() == text.len(),
            i <= last + 1,
            forall|j: int| 0 <= j < i ==> !occurs_at(text@, pattern@, j),
        decreases last + 1 - i,
    {
        if occurs_at_exec(text, pattern, i) {
            return true;
        }
        i = i + 1;
    }
    assert forall|j: int| !occurs_at(text@, pattern@, j) by {
        if 0 <= j < i {
        }
    }
    false
}

} // verus!
