//! The names under which the evaluator keeps its records on a blackboard.
//!
//! Three families of keys carry a number in their name: the last status of a
//! node (`node_7`), the progress of a repeater (`repeater_7_count`) and a
//! cooldown timer (`cooldown_7`). The number is written in decimal, without
//! sign or leading zeros. Three more keys are fixed words.

use vstd::prelude::*;
use vstd::string::*;

verus! {

/// The character that writes the digit `d`.
pub open spec fn digit_char(d: nat) -> char {
    if d == 0 {
        '0'
    } else if d == 1 {
        '1'
    } else if d == 2 {
        '2'
    } else if d == 3 {
        '3'
    } else if d == 4 {
        '4'
    } else if d == 5 {
        '5'
    } else if d == 6 {
        '6'
    } else if d == 7 {
        '7'
    } else if d == 8 {
        '8'
    } else {
        '9'
    }
}

/// `n` written in decimal.
pub open spec fn decimal(n: nat) -> Seq<char>
    decreases n,
{
    if n < 10 {
        seq![digit_char(n)]
    } else {
        decimal(n / 10).push(digit_char(n % 10))
    }
}

/// The key that holds the last status of node `id`.
pub open spec fn node_key(id: nat) -> Seq<char> {
    "node_"@ + decimal(id)
}

/// The key that holds how often the repeater `id` has seen its child succeed.
pub open spec fn repeater_key(id: nat) -> Seq<char> {
    "repeater_"@ + decimal(id) + "_count"@
}

/// The key that holds the cooldown timer number `n`.
pub open spec fn cooldown_key(n: nat) -> Seq<char> {
    "cooldown_"@ + decimal(n)
}

/// The key under which a host raises the flag that the target is in sight.
pub open spec fn target_visible_key() -> Seq<char> {
    "target_visible"@
}

/// The key under which an action leaves its code for the host.
pub open spec fn action_key() -> Seq<char> {
    "action"@
}

/// The key under which an action leaves its parameter for the host.
pub open spec fn action_parameter_key() -> Seq<char> {
    "action_parameter"@
}

/// A number written in decimal has at least one digit.
pub proof fn lemma_decimal_nonempty(n: nat)
    ensures
        decimal(n).len() >= 1,
    decreases n,
{
    if n >= 10 {
        lemma_decimal_nonempty(n / 10);
    }
}

/// Two numbers that are written alike are the same number.
pub proof fn lemma_decimal_injective(a: nat, b: nat)
    requires
        decimal(a) == decimal(b),
    ensures
        a == b,
    decreases a,
{
    lemma_decimal_nonempty(a / 10);
    lemma_decimal_nonempty(b / 10);
    if a < 10 && b < 10 {
        assert(decimal(a)[0] == digit_char(a));
        assert(decimal(b)[0] == digit_char(b));
    } else if a >= 10 && b >= 10 {
        let front_a = decimal(a / 10);
        let front_b = decimal(b / 10);
        assert(decimal(a).last() == digit_char(a % 10));
        assert(decimal(b).last() == digit_char(b % 10));
        assert(decimal(a).drop_last() =~= front_a);
        assert(decimal(b).drop_last() =~= front_b);
        lemma_decimal_injective(a / 10, b / 10);
        assert(a % 10 == b % 10);
    } else if a < 10 {
        assert(decimal(a).len() == 1);
        assert(decimal(b).len() == decimal(b / 10).len() + 1);
    } else {
        assert(decimal(b).len() == 1);
        assert(decimal(a).len() == decimal(a / 10).len() + 1);
    }
}

/// A text is found again behind a prefix and before a suffix.
proof fn lemma_framed_text_is_found(
    prefix: Seq<char>,
    a: Seq<char>,
    b: Seq<char>,
    suffix: Seq<char>,
)
    requires
        prefix + a + suffix == prefix + b + suffix,
    ensures
        a == b,
{
    let left = prefix + a + suffix;
    let right = prefix + b + suffix;
    assert(left.len() == prefix.len() + a.len() + suffix.len());
    assert(right.len() == prefix.len() + b.len() + suffix.len());
    assert(a =~= left.subrange(prefix.len() as int, (prefix.len() + a.len()) as int));
    assert(b =~= right.subrange(prefix.len() as int, (prefix.len() + b.len()) as int));
}

/// Distinct nodes record their statuses under distinct keys.
pub proof fn node_keys_differ(a: nat, b: nat)
    requires
        a != b,
    ensures
        node_key(a) != node_key(b),
{
    if node_key(a) == node_key(b) {
        assert(node_key(a) =~= "node_"@ + decimal(a) + Seq::empty());
        assert(node_key(b) =~= "node_"@ + decimal(b) + Seq::empty());
        lemma_framed_text_is_found("node_"@, decimal(a), decimal(b), Seq::empty());
        lemma_decimal_injective(a, b);
    }
}

/// Distinct repeaters keep their counts under distinct keys.
pub proof fn repeater_keys_differ(a: nat, b: nat)
    requires
        a != b,
    ensures
        repeater_key(a) != repeater_key(b),
{
    if repeater_key(a) == repeater_key(b) {
        lemma_framed_text_is_found("repeater_"@, decimal(a), decimal(b), "_count"@);
        lemma_decimal_injective(a, b);
    }
}

/// Distinct cooldown timers run under distinct keys.
pub proof fn cooldown_keys_differ(a: nat, b: nat)
    requires
        a != b,
    ensures
        cooldown_key(a) != cooldown_key(b),
{
    if cooldown_key(a) == cooldown_key(b) {
        assert(cooldown_key(a) =~= "cooldown_"@ + decimal(a) + Seq::empty());
        assert(cooldown_key(b) =~= "cooldown_"@ + decimal(b) + Seq::empty());
        lemma_framed_text_is_found("cooldown_"@, decimal(a), decimal(b), Seq::empty());
        lemma_decimal_injective(a, b);
    }
}

/// No key of one family is a key of another: the record of a node, the
/// count of a repeater, a cooldown timer and the three fixed keys never
/// share a name.
pub proof fn key_families_are_disjoint(node: nat, repeater: nat, cooldown: nat)
    ensures
        node_key(node) != repeater_key(repeater),
        node_key(node) != cooldown_key(cooldown),
        node_key(node) != target_visible_key(),
        node_key(node) != action_key(),
        node_key(node) != action_parameter_key(),
        repeater_key(repeater) != cooldown_key(cooldown),
        repeater_key(repeater) != target_visible_key(),
        repeater_key(repeater) != action_key(),
        repeater_key(repeater) != action_parameter_key(),
        cooldown_key(cooldown) != target_visible_key(),
        cooldown_key(cooldown) != action_key(),
        cooldown_key(cooldown) != action_parameter_key(),
        target_visible_key() != action_key(),
        target_visible_key() != action_parameter_key(),
        action_key() != action_parameter_key(),
{
    reveal_strlit("node_");
    reveal_strlit("repeater_");
    reveal_strlit("cooldown_");
    reveal_strlit("_count");
    reveal_strlit("target_visible");
    reveal_strlit("action");
    reveal_strlit("action_parameter");
    assert(node_key(node)[0] == 'n');
    assert(repeater_key(repeater)[0] == 'r');
    assert(cooldown_key(cooldown)[0] == 'c');
    assert(target_visible_key()[0] == 't');
    assert(action_key()[0] == 'a');
    assert(action_parameter_key()[0] == 'a');
    assert(action_key().len() == 6);
    assert(action_parameter_key().len() == 16);
}

/// The one-character text of a digit.
fn digit_text(d: u64) -> (s: &'static str)
    requires
        d < 10,
    ensures
        s@ == seq![digit_char(d as nat)],
{
    proof {
        reveal_strlit("0");
        reveal_strlit("1");
        reveal_strlit("2");
        reveal_strlit("3");
        reveal_strlit("4");
        reveal_strlit("5");
        reveal_strlit("6");
        reveal_strlit("7");
        reveal_strlit("8");
        reveal_strlit("9");
    }
    let s: &'static str = if d == 0 {
        "0"
    } else if d == 1 {
        "1"
    } else if d == 2 {
        "2"
    } else if d == 3 {
        "3"
    } else if d == 4 {
        "4"
    } else if d == 5 {
        "5"
    } else if d == 6 {
        "6"
    } else if d == 7 {
        "7"
    } else if d == 8 {
        "8"
    } else {
        "9"
    };
    assert(s@ =~= seq![digit_char(d as nat)]);
    s
}

/// Appends `n`, written in decimal, to `out`.
fn push_decimal(out: &mut String, n: u64)
    ensures
        final(out)@ == old(out)@ + decimal(n as nat),
    decreases n,
{
    if n >= 10 {
        push_decimal(out, n / 10);
    }
    out.append(digit_text(n % 10));
    assert(out@ =~= old(out)@ + decimal(n as nat));
}

/// Builds the key that holds the last status of node `id`.
pub fn node_key_string(id: usize) -> (key: String)
    ensures
        key@ == node_key(id as nat),
{
    let mut key = String::from_str("node_");
    push_decimal(&mut key, id as u64);
    key
}

/// Builds the key that holds the progress of the repeater `id`.
pub fn repeater_key_string(id: usize) -> (key: String)
    ensures
        key@ == repeater_key(id as nat),
{
    let mut key = String::from_str("repeater_");
    push_decimal(&mut key, id as u64);
    key.append("_count");
    key
}

/// Builds the key that holds the cooldown timer number `n`.
pub fn cooldown_key_string(n: u32) -> (key: String)
    ensures
        key@ == cooldown_key(n as nat),
{
    let mut key = String::from_str("cooldown_");
    push_decimal(&mut key, n as u64);
    key
}

} // verus!
