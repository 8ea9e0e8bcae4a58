//! Identifiers and display texts, and the decimal numbers inside them.
use vstd::prelude::*;

verus! {

/// The character of one decimal digit.
pub open spec fn digit_char(d: nat) -> char {
    if d == 0 {
        '0'
    } else if d == 1 {
        '1'
    } else if d == 2 {
        '2'
    } else if d == 3 {
        '3'
    } else if d == 4 {
        '4'
    } else if d == 5 {
        '5'
    } else if d == 6 {
        '6'
    } else if d == 7 {
        '7'
    } else if d == 8 {
        '8'
    } else {
        '9'
    }
}

/// The decimal notation of `n`, without sign or leading zeros.
pub open spec fn decimal(n: nat) -> Seq<char>
    decreases n,
{
    if n < 10 {
        seq![digit_char(n)]
    } else {
        decimal(n / 10).push(digit_char(n % 10))
    }
}

/// `p` is a prefix of `s`.
pub open spec fn has_prefix(s: Seq<char>, p: Seq<char>) -> bool {
    p.len() <= s.len() && s.subrange(0, p.len() as int) == p
}

/// Identifier of the enemy created with counter value `n`.
pub open spec fn enemy_label_of(n: nat) -> Seq<char> {
    "enemy_"@ + decimal(n)
}

/// Content of the score label for score `n`.
pub open spec fn score_text_of(n: nat) -> Seq<char> {
    "Score: "@ + decimal(n)
}

/// Content of the high-score label for high score `n`.
pub open spec fn high_score_text_of(n: nat) -> Seq<char> {
    "High Score: "@ + decimal(n)
}

/// Relies on `u64::to_string` (std's `Display` for integers): the decimal
/// notation of the number.
#[verifier::external_body]
fn decimal_string(n: u64) -> (r: String)
    ensures
        r@ == decimal(n as nat),
{
    n.to_string()
}

/// `prefix` followed by the decimal notation of `n`.
fn with_number(prefix: &str, n: u64) -> (r: String)
    ensures
        r@ == prefix@ + decimal(n as nat),
{
    let mut s = String::from_str(prefix);
    let digits = decimal_string(n);
    s.append(digits.as_str());
    s
}

/// The identifier `enemy_<n>`.
pub fn enemy_label(n: u64) -> (r: String)
    ensures
        r@ == enemy_label_of(n as nat),
{
    with_number("enemy_", n)
}

/// The score label's content, `Score: <n>`.
pub fn score_text(n: u64) -> (r: String)
    ensures
        r@ == score_text_of(n as nat),
{
    with_number("Score: ", n)
}

/// The high-score label's content, `High Score: <n>`.
pub fn high_score_text(n: u64) -> (r: String)
    ensures
        r@ == high_score_text_of(n as nat),
{
    with_number("High Score: ", n)
}

/// Whether `s` starts with `prefix`.
pub fn starts_with(s: &str, prefix: &str) -> (r: bool)
    ensures
        r == has_prefix(s@, prefix@),
{
    let n = prefix.unicode_len();
    let m = s.unicode_len();
    if n > m {
        return false;
    }
    let mut i: usize = 0;
    while i < n
        invariant
            n == prefix@.len(),
            m == s@.len(),
            n <= m,
            i <= n,
            forall|j: int| 0 <= j < i ==> s@[j] == prefix@[j],
        decreases n - i,
    {
        if s.get_char(i) != prefix.get_char(i) {
            assert(s@.subrange(0, n as int)[i as int] != prefix@[i as int]);
            return false;
        }
        i = i + 1;
    }
    assert(s@.subrange(0, n as int) =~= prefix@);
    true
}

proof fn lemma_decimal_nonempty(n: nat)
    ensures
        decimal(n).len() >= 1,
        n >= 10 ==> decimal(n).len() >= 2,
    decreases n,
{
    if n >= 10 {
        lemma_decimal_nonempty(n / 10);
    }
}

/// Different numbers have different decimal notations.
pub proof fn lemma_decimal_injective(a: nat, b: nat)
    requires
        decimal(a) == decimal(b),
    ensures
        a == b,
    decreases a,
{
    lemma_decimal_nonempty(a);
    lemma_decimal_nonempty(b);
    if a >= 10 && b >= 10 {
        let da = decimal(a);
        let db = decimal(b);
        assert(da.last() == db.last());
        assert(da.drop_last() =~= decimal(a / 10));
        assert(db.drop_last() =~= decimal(b / 10));
        lemma_decimal_injective(a / 10, b / 10);
        lemma_digit_injective(a % 10, b % 10);
        assert(a == 10 * (a / 10) + a % 10);
        assert(b == 10 * (b / 10) + b % 10);
    } else if a < 10 && b < 10 {
        assert(decimal(a)[0] == digit_char(a));
        assert(decimal(b)[0] == digit_char(b));
        lemma_digit_injective(a, b);
    } else {
        assert(decimal(a).len() != decimal(b).len());
    }
}

proof fn lemma_digit_injective(x: nat, y: nat)
    requires
        x < 10,
        y < 10,
        digit_char(x) == digit_char(y),
    ensures
        x == y,
{
}

/// Different counter values give different enemy identifiers.
pub proof fn lemma_enemy_label_injective(a: nat, b: nat)
    requires
        a != b,
    ensures
        enemy_label_of(a) != enemy_label_of(b),
{
    if enemy_label_of(a) == enemy_label_of(b) {
        let k = "enemy_"@.len() as int;
        assert(enemy_label_of(a).subrange(k, enemy_label_of(a).len() as int) =~= decimal(a));
        assert(enemy_label_of(b).subrange(k, enemy_label_of(b).len() as int) =~= decimal(b));
        lemma_decimal_injective(a, b);
    }
}

} // verus!
