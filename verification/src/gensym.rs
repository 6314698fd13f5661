//! Fresh names for closure environments: `env0`, `env1`, ... drawn from a counter.
use vstd::prelude::*;

verus! {

/// The counter from which environment names are drawn.
#[derive(Debug)]
pub struct GensymCount {
    pub count: u64,
}

impl GensymCount {
    /// A counter at zero.
    pub fn new() -> (g: GensymCount)
        ensures
            g.count == 0,
    {
        GensymCount { count: 0 }
    }
}

/// The decimal digit for `d` (for `d < 10`).
pub open spec fn digit_char(d: nat) -> char {
    if d == 0 {
        '0'
    } else if d == 1 {
        '1'
    } else if d == 2 {
        '2'
    } else if d == 3 {
        '3'
    } else if d == 4 {
        '4'
    } else if d == 5 {
        '5'
    } else if d == 6 {
        '6'
    } else if d == 7 {
        '7'
    } else if d == 8 {
        '8'
    } else {
        '9'
    }
}

/// The decimal notation of `n`, without leading zeros.
pub open spec fn decimal(n: nat) -> Seq<char>
    decreases n,
{
    if n < 10 {
        seq![digit_char(n)]
    } else {
        decimal(n / 10).push(digit_char(n % 10))
    }
}

/// The name of the environment drawn when the counter stands at `n`.
pub open spec fn env_name(n: u64) -> Seq<char> {
    seq!['e', 'n', 'v'] + decimal(n as nat)
}

/// The counter after one name is drawn: one more, wrapping around at the top.
pub open spec fn next_count(n: u64) -> u64 {
    if n == u64::MAX {
        0
    } else {
        (n + 1) as u64
    }
}

fn digit_str(d: u64) -> (s: &'static str)
    requires
        d < 10,
    ensures
        s@ == seq![digit_char(d as nat)],
{
    if d == 0 {
        proof { reveal_strlit("0"); }
        assert("0"@ =~= seq!['0']);
        "0"
    } else if d == 1 {
        proof { reveal_strlit("1"); }
        assert("1"@ =~= seq!['1']);
        "1"
    } else if d == 2 {
        proof { reveal_strlit("2"); }
        assert("2"@ =~= seq!['2']);
        "2"
    } else if d == 3 {
        proof { reveal_strlit("3"); }
        assert("3"@ =~= seq!['3']);
        "3"
    } else if d == 4 {
        proof { reveal_strlit("4"); }
        assert("4"@ =~= seq!['4']);
        "4"
    } else if d == 5 {
        proof { reveal_strlit("5"); }
        assert("5"@ =~= seq!['5']);
        "5"
    } else if d == 6 {
        proof { reveal_strlit("6"); }
        assert("6"@ =~= seq!['6']);
        "6"
    } else if d == 7 {
        proof { reveal_strlit("7"); }
        assert("7"@ =~= seq!['7']);
        "7"
    } else if d == 8 {
        proof { reveal_strlit("8"); }
        assert("8"@ =~= seq!['8']);
        "8"
    } else {
        proof { reveal_strlit("9"); }
        assert("9"@ =~= seq!['9']);
        "9"
    }
}

/// Appends the decimal notation of `n` to `s`.
fn push_decimal(s: &mut String, n: u64)
    ensures
        final(s)@ == old(s)@ + decimal(n as nat),
    decreases n,
{
    if n >= 10 {
        push_decimal(s, n / 10);
    }
    s.append(digit_str(n % 10));
}

/// Draws the next environment name: `env` followed by the counter in decimal;
/// the counter moves on by one.
pub fn generate_env_name(gensym: &mut GensymCount) -> (name: String)
    ensures
        name@ == env_name(old(gensym).count),
        final(gensym).count == next_count(old(gensym).count),
{
    let mut name = String::from_str("env");
    proof {
        reveal_strlit("env");
    }
    assert(name@ =~= seq!['e', 'n', 'v']);
    push_decimal(&mut name, gensym.count);
    gensym.count = gensym.count.wrapping_add(1);
    name
}

/// Sets the counter back to zero, so that the next name drawn is `env0`.
pub fn dangerously_reset_gensym_count(gensym: &mut GensymCount)
    ensures
        final(gensym).count == 0,
{
    gensym.count = 0;
}

proof fn lemma_digit_injective(x: nat, y: nat)
    requires
        x < 10,
        y < 10,
        digit_char(x) == digit_char(y),
    ensures
        x == y,
{
}

proof fn lemma_decimal_len(n: nat)
    ensures
        decimal(n).len() >= 1,
        decimal(n).len() == 1 <==> n < 10,
    decreases n,
{
    if n >= 10 {
        lemma_decimal_len(n / 10);
    }
}

/// Distinct numbers have distinct decimal notations.
pub proof fn lemma_decimal_injective(a: nat, b: nat)
    requires
        decimal(a) == decimal(b),
    ensures
        a == b,
    decreases a,
{
    lemma_decimal_len(a);
    lemma_decimal_len(b);
    if a >= 10 && b >= 10 {
        assert(decimal(a).drop_last() =~= decimal(a / 10));
        assert(decimal(b).drop_last() =~= decimal(b / 10));
        assert(digit_char(a % 10) == decimal(a).last());
        assert(digit_char(b % 10) == decimal(b).last());
        lemma_digit_injective(a % 10, b % 10);
        lemma_decimal_injective(a / 10, b / 10);
    } else {
        assert(a < 10 && b < 10);
        assert(decimal(a)[0] == digit_char(a));
        assert(decimal(b)[0] == digit_char(b));
        lemma_digit_injective(a, b);
    }
}

/// Names drawn at distinct counter values are distinct.
pub proof fn lemma_env_names_distinct(a: u64, b: u64)
    requires
        a != b,
    ensures
        env_name(a) != env_name(b),
{
    if env_name(a) == env_name(b) {
        let p = seq!['e', 'n', 'v'];
        assert((p + decimal(a as nat)).skip(3) =~= decimal(a as nat));
        assert((p + decimal(b as nat)).skip(3) =~= decimal(b as nat));
        lemma_decimal_injective(a as nat, b as nat);
    }
}

/// Two consecutive draws give different names.
pub proof fn lemma_consecutive_names_differ(n: u64)
    ensures
        env_name(n) != env_name(next_count(n)),
{
    lemma_env_names_distinct(n, next_count(n));
}

/// The counter after `i` names have been drawn from `n`.
pub open spec fn count_after(n: u64, i: nat) -> u64
    decreases i,
{
    if i == 0 {
        n
    } else {
        next_count(count_after(n, (i - 1) as nat))
    }
}

/// After `i` draws the counter stands at `n + i`, taken modulo 2^64.
pub proof fn lemma_count_after(n: u64, i: nat)
    ensures
        count_after(n, i) as int == (n + i) % 0x1_0000_0000_0000_0000,
    decreases i,
{
    if i > 0 {
        lemma_count_after(n, (i - 1) as nat);
        let x: int = n + i - 1;
        assert(x >= 0);
        assert((x + 1) % 0x1_0000_0000_0000_0000 == if x % 0x1_0000_0000_0000_0000
            == 0xffff_ffff_ffff_ffff {
            0
        } else {
            x % 0x1_0000_0000_0000_0000 + 1
        });
    }
}

/// Successive draws give pairwise distinct names: from a counter at `n`, the names
/// drawn after `i` and after `j` earlier draws differ whenever `i < j < 2^64`.
pub proof fn successive_draws_distinct(n: u64, i: nat, j: nat)
    requires
        i < j < 0x1_0000_0000_0000_0000,
    ensures
        env_name(count_after(n, i)) != env_name(count_after(n, j)),
{
    lemma_count_after(n, i);
    lemma_count_after(n, j);
    assert(count_after(n, i) != count_after(n, j));
    lemma_env_names_distinct(count_after(n, i), count_after(n, j));
}

} // verus!
