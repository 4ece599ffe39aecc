//! Names of the slots of the key store and where they lie under its root.
use vstd::prelude::*;

verus! {

/// The character of a decimal digit.
pub open spec fn digit_char(d: nat) -> char {
    if d == 0 {
        '0'
    } else if d == 1 {
        '1'
    } else if d == 2 {
        '2'
    } else if d == 3 {
        '3'
    } else if d == 4 {
        '4'
    } else if d == 5 {
        '5'
    } else if d == 6 {
        '6'
    } else if d == 7 {
        '7'
    } else if d == 8 {
        '8'
    } else {
        '9'
    }
}

/// A number written in decimal, without leading zeros.
pub open spec fn decimal(n: nat) -> Seq<char>
    decreases n,
{
    if n < 10 {
        seq![digit_char(n)]
    } else {
        decimal(n / 10).push(digit_char(n % 10))
    }
}

/// The decimal spelling of two numbers is the same only for the same number.
pub proof fn lemma_decimal_injective(a: nat, b: nat)
    requires
        decimal(a) == decimal(b),
    ensures
        a == b,
    decreases a,
{
    lemma_decimal_nonempty(a);
    lemma_decimal_nonempty(b);
    if a < 10 && b < 10 {
        assert(decimal(a) == seq![digit_char(a)]);
        assert(decimal(b) == seq![digit_char(b)]);
        assert(decimal(a)[0] == decimal(b)[0]);
        assert(seq![digit_char(a)][0] == digit_char(a));
        assert(seq![digit_char(b)][0] == digit_char(b));
        lemma_digit_injective(a, b);
    } else if a < 10 {
        lemma_decimal_nonempty(b / 10);
        assert(decimal(a).len() == decimal(b).len());
    } else if b < 10 {
        lemma_decimal_nonempty(a / 10);
        assert(decimal(a).len() == decimal(b).len());
    } else {
        assert(decimal(a) == decimal(a / 10).push(digit_char(a % 10)));
        assert(decimal(b) == decimal(b / 10).push(digit_char(b % 10)));
        assert(decimal(a / 10) == decimal(a).drop_last());
        assert(decimal(b / 10) == decimal(b).drop_last());
        lemma_decimal_injective(a / 10, b / 10);
        assert(decimal(a).last() == digit_char(a % 10));
        assert(decimal(b).last() == digit_char(b % 10));
        lemma_digit_injective(a % 10, b % 10);
        assert(a % 10 == b % 10);
        assert(a == (a / 10) * 10 + a % 10);
        assert(b == (b / 10) * 10 + b % 10);
    }
}

proof fn lemma_digit_injective(x: nat, y: nat)
    requires
        x < 10,
        y < 10,
        digit_char(x) == digit_char(y),
    ensures
        x == y,
{
}

pub proof fn lemma_decimal_nonempty(n: nat)
    ensures
        decimal(n).len() >= 1,
        n >= 10 ==> decimal(n).len() >= 2,
    decreases n,
{
    if n >= 10 {
        lemma_decimal_nonempty(n / 10);
    }
}

fn digit_str(d: u64) -> (r: &'static str)
    requires
        d < 10,
    ensures
        r@ == seq![digit_char(d as nat)],
{
    proof {
        reveal_strlit("0");
        reveal_strlit("1");
        reveal_strlit("2");
        reveal_strlit("3");
        reveal_strlit("4");
        reveal_strlit("5");
        reveal_strlit("6");
        reveal_strlit("7");
        reveal_strlit("8");
        reveal_strlit("9");
    }
    if d == 0 {
        "0"
    } else if d == 1 {
        "1"
    } else if d == 2 {
        "2"
    } else if d == 3 {
        "3"
    } else if d == 4 {
        "4"
    } else if d == 5 {
        "5"
    } else if d == 6 {
        "6"
    } else if d == 7 {
        "7"
    } else if d == 8 {
        "8"
    } else {
        "9"
    }
}

/// Writes a number in decimal.
pub fn decimal_string(n: u64) -> (r: String)
    ensures
        r@ == decimal(n as nat),
    decreases n,
{
    if n < 10 {
        String::from_str(digit_str(n))
    } else {
        let mut s = decimal_string(n / 10);
        s.append(digit_str(n % 10));
        s
    }
}

/// A path with one more component.
pub open spec fn joined(base: Seq<char>, part: Seq<char>) -> Seq<char> {
    base + seq!['/'] + part
}

/// Appends a component to a path.
pub fn join(base: &String, part: &str) -> (r: String)
    ensures
        r@ == joined(base@, part@),
{
    proof {
        reveal_strlit("/");
    }
    let mut r = base.clone();
    r.append("/");
    r.append(part);
    r
}

/// The name of a slot of an aggregate.
pub enum StoreKey {
    Info,
    Snapshot,
    Event(u64),
    Command(u64),
}

/// The file name under which a slot is kept.
pub open spec fn key_name(key: StoreKey) -> Seq<char> {
    match key {
        StoreKey::Info => seq!['i', 'n', 'f', 'o', '.', 'j', 's', 'o', 'n'],
        StoreKey::Snapshot => seq!['s', 'n', 'a', 'p', 's', 'h', 'o', 't', '.', 'j', 's', 'o', 'n'],
        StoreKey::Event(v) => seq!['d', 'e', 'l', 't', 'a', '-'] + decimal(v as nat) + seq![
            '.',
            'j',
            's',
            'o',
            'n',
        ],
        StoreKey::Command(s) => seq!['c', 'o', 'm', 'm', 'a', 'n', 'd', '-'] + decimal(s as nat)
            + seq!['.', 'j', 's', 'o', 'n'],
    }
}

/// The file name of a slot.
pub fn key_file_name(key: &StoreKey) -> (r: String)
    ensures
        r@ == key_name(*key),
{
    proof {
        reveal_strlit("info.json");
        reveal_strlit("snapshot.json");
        reveal_strlit("delta-");
        reveal_strlit("command-");
        reveal_strlit(".json");
    }
    match key {
        StoreKey::Info => String::from_str("info.json"),
        StoreKey::Snapshot => String::from_str("snapshot.json"),
        StoreKey::Event(v) => {
            let mut r = String::from_str("delta-");
            let d = decimal_string(*v);
            r.append(d.as_str());
            r.append(".json");
            r
        },
        StoreKey::Command(s) => {
            let mut r = String::from_str("command-");
            let d = decimal_string(*s);
            r.append(d.as_str());
            r.append(".json");
            r
        },
    }
}

/// Different slots have different file names.
pub proof fn lemma_key_name_injective(a: StoreKey, b: StoreKey)
    requires
        key_name(a) == key_name(b),
    ensures
        a == b,
{
    let na = key_name(a);
    let nb = key_name(b);
    assert(na[0] == nb[0]);
    match (a, b) {
        (StoreKey::Event(v), StoreKey::Event(w)) => {
            lemma_decimal_nonempty(v as nat);
            lemma_decimal_nonempty(w as nat);
            assert(decimal(v as nat) == na.subrange(6, na.len() - 5));
            assert(decimal(w as nat) == nb.subrange(6, nb.len() - 5));
            lemma_decimal_injective(v as nat, w as nat);
        },
        (StoreKey::Command(v), StoreKey::Command(w)) => {
            lemma_decimal_nonempty(v as nat);
            lemma_decimal_nonempty(w as nat);
            assert(decimal(v as nat) == na.subrange(8, na.len() - 5));
            assert(decimal(w as nat) == nb.subrange(8, nb.len() - 5));
            lemma_decimal_injective(v as nat, w as nat);
        },
        _ => {},
    }
}

} // verus!
