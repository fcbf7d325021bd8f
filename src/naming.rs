use vstd::prelude::*;
use vstd::string::*;

verus! {

/// The decimal digit character for `d < 10`.
pub open spec fn digit_char(d: nat) -> char {
    if d == 0 {
        '0'
    } else if d == 1 {
        '1'
    } else if d == 2 {
        '2'
    } else if d == 3 {
        '3'
    } else if d == 4 {
        '4'
    } else if d == 5 {
        '5'
    } else if d == 6 {
        '6'
    } else if d == 7 {
        '7'
    } else if d == 8 {
        '8'
    } else {
        '9'
    }
}

/// The decimal representation of `n`, without leading zeros.
pub open spec fn decimal(n: nat) -> Seq<char>
    decreases n,
{
    if n < 10 {
        seq![digit_char(n)]
    } else {
        decimal(n / 10).push(digit_char(n % 10))
    }
}

/// The name used when the backend gives a submodel none.
pub open spec fn fallback_name() -> Seq<char> {
    seq!['u', 'n', 'k', 'n', 'o', 'w', 'n']
}

/// The display name of submodel `index` of device `device_id`:
/// `<name or "unknown">-<device id>-<index>`.
pub open spec fn component_name_spec(name: Option<Seq<char>>, device_id: u32, index: nat) -> Seq<char> {
    let base = match name {
        Some(s) => s,
        None => fallback_name(),
    };
    base + seq!['-'] + decimal(device_id as nat) + seq!['-'] + decimal(index)
}

fn digit_str(d: u64) -> (r: &'static str)
    requires
        d < 10,
    ensures
        r@ == seq![digit_char(d as nat)],
{
    if d == 0 {
        proof { reveal_strlit("0"); }
        "0"
    } else if d == 1 {
        proof { reveal_strlit("1"); }
        "1"
    } else if d == 2 {
        proof { reveal_strlit("2"); }
        "2"
    } else if d == 3 {
        proof { reveal_strlit("3"); }
        "3"
    } else if d == 4 {
        proof { reveal_strlit("4"); }
        "4"
    } else if d == 5 {
        proof { reveal_strlit("5"); }
        "5"
    } else if d == 6 {
        proof { reveal_strlit("6"); }
        "6"
    } else if d == 7 {
        proof { reveal_strlit("7"); }
        "7"
    } else if d == 8 {
        proof { reveal_strlit("8"); }
        "8"
    } else {
        proof { reveal_strlit("9"); }
        "9"
    }
}

/// Appends the decimal representation of `n` to `s`.
pub fn push_decimal(s: &mut String, n: u64)
    ensures
        final(s)@ == old(s)@ + decimal(n as nat),
    decreases n,
{
    let ghost start = s@;
    if n >= 10 {
        push_decimal(s, n / 10);
    }
    s.append(digit_str(n % 10));
    proof {
        if n >= 10 {
            assert(start + decimal((n / 10) as nat) + seq![digit_char((n % 10) as nat)]
                =~= start + decimal(n as nat));
        } else {
            assert(start + seq![digit_char((n % 10) as nat)] =~= start + decimal(n as nat));
        }
    }
}

/// Builds the display name of submodel `index` of device `device_id`.
pub fn component_name(name: &Option<String>, device_id: u32, index: usize) -> (r: String)
    ensures
        r@ == component_name_spec(
            match name {
                Some(s) => Some(s@),
                None => None,
            },
            device_id,
            index as nat,
        ),
{
    let mut s = match name {
        Some(n) => n.clone(),
        None => {
            proof { reveal_strlit("unknown"); }
            String::from_str("unknown")
        },
    };
    proof { reveal_strlit("-"); }
    s.append("-");
    push_decimal(&mut s, device_id as u64);
    s.append("-");
    push_decimal(&mut s, index as u64);
    s
}

/// Only single digits have a one-character representation.
pub proof fn lemma_decimal_len(n: nat)
    ensures
        decimal(n).len() >= 1,
        n < 10 <==> decimal(n).len() == 1,
    decreases n,
{
    if n >= 10 {
        lemma_decimal_len(n / 10);
    }
}

proof fn lemma_digit_injective(a: nat, b: nat)
    requires
        a < 10,
        b < 10,
        digit_char(a) == digit_char(b),
    ensures
        a == b,
{
}

/// Distinct numbers have distinct decimal representations.
pub proof fn lemma_decimal_injective(a: nat, b: nat)
    requires
        decimal(a) == decimal(b),
    ensures
        a == b,
    decreases a,
{
    lemma_decimal_len(a);
    lemma_decimal_len(b);
    if a < 10 {
        assert(decimal(a)[0] == digit_char(a));
        assert(decimal(b)[0] == digit_char(b));
        lemma_digit_injective(a, b);
    } else {
        let da = decimal(a);
        let db = decimal(b);
        assert(da.drop_last() =~= decimal(a / 10));
        assert(db.drop_last() =~= decimal(b / 10));
        assert(da.last() == digit_char(a % 10));
        assert(db.last() == digit_char(b % 10));
        lemma_decimal_injective(a / 10, b / 10);
        lemma_digit_injective(a % 10, b % 10);
    }
}

/// Two submodels of one device that carry the same backend name (or none)
/// still get different display names, told apart by their index suffix.
pub proof fn lemma_component_names_distinct(
    name: Option<Seq<char>>,
    device_id: u32,
    i: nat,
    j: nat,
)
    requires
        i != j,
    ensures
        component_name_spec(name, device_id, i) != component_name_spec(name, device_id, j),
{
    let base = match name {
        Some(s) => s,
        None => fallback_name(),
    };
    let prefix = base + seq!['-'] + decimal(device_id as nat) + seq!['-'];
    let ni = component_name_spec(name, device_id, i);
    let nj = component_name_spec(name, device_id, j);
    assert(ni =~= prefix + decimal(i));
    assert(nj =~= prefix + decimal(j));
    if ni == nj {
        assert(ni.subrange(prefix.len() as int, ni.len() as int) =~= decimal(i));
        assert(nj.subrange(prefix.len() as int, nj.len() as int) =~= decimal(j));
        lemma_decimal_injective(i, j);
    }
}

} // verus!
