use vstd::prelude::*;
use vstd::string::StringExecFns;

verus! {

/// The character of a decimal digit.
pub open spec fn digit_char(d: int) -> char {
    (d + 48) as char
}

/// Decimal text of a natural number, most significant digit first.
pub open spec fn dec_nat(n: nat) -> Seq<char>
    decreases n,
{
    if n < 10 {
        seq![digit_char(n as int)]
    } else {
        dec_nat(n / 10).push(digit_char((n % 10) as int))
    }
}

/// Decimal text of an integer, with a leading `-` when negative.
pub open spec fn dec_int(i: int) -> Seq<char> {
    if i < 0 {
        seq!['-'] + dec_nat((-i) as nat)
    } else {
        dec_nat(i as nat)
    }
}

/// Decimal text of a flag: `1` for true, `0` for false.
pub open spec fn flag(b: bool) -> Seq<char> {
    dec_int(if b { 1 } else { 0 })
}

/// The arguments of a command, separated by commas.
pub open spec fn join_args(args: Seq<Seq<char>>) -> Seq<char>
    decreases args.len(),
{
    if args.len() == 0 {
        Seq::empty()
    } else if args.len() == 1 {
        args[0]
    } else {
        join_args(args.drop_last()) + ","@ + args.last()
    }
}

/// The text of the command `km.<name>(<args>)`.
pub open spec fn call(name: Seq<char>, args: Seq<Seq<char>>) -> Seq<char> {
    "km."@ + name + "("@ + join_args(args) + ")"@
}

/// The texts of a sequence of strings.
pub open spec fn texts(v: Seq<String>) -> Seq<Seq<char>> {
    v.map_values(|s: String| s@)
}

/// The one-character text of a digit.
fn digit_str(d: u64) -> (s: &'static str)
    requires
        d < 10,
    ensures
        s@ == seq![digit_char(d as int)],
{
    proof {
        reveal_strlit("0");
        reveal_strlit("1");
        reveal_strlit("2");
        reveal_strlit("3");
        reveal_strlit("4");
        reveal_strlit("5");
        reveal_strlit("6");
        reveal_strlit("7");
        reveal_strlit("8");
        reveal_strlit("9");
    }
    match d {
        0 => "0",
        1 => "1",
        2 => "2",
        3 => "3",
        4 => "4",
        5 => "5",
        6 => "6",
        7 => "7",
        8 => "8",
        _ => "9",
    }
}

/// Appends the decimal text of `v`.
pub fn push_dec(s: &mut String, v: u64)
    ensures
        final(s)@ == old(s)@ + dec_nat(v as nat),
    decreases v,
{
    if v >= 10 {
        push_dec(s, v / 10);
    }
    s.append(digit_str(v % 10));
    proof {
        if v >= 10 {
            assert(dec_nat(v as nat) == dec_nat((v / 10) as nat).push(digit_char((v % 10) as int)));
        }
    }
    assert(final(s)@ =~= old(s)@ + dec_nat(v as nat));
}

/// Decimal text of a signed integer.
pub fn int_text(v: i64) -> (s: String)
    ensures
        s@ == dec_int(v as int),
{
    let mut s = String::new();
    if v < 0 {
        proof {
            reveal_strlit("-");
        }
        s.append("-");
        let m: u64 = if v == i64::MIN {
            0x8000_0000_0000_0000u64
        } else {
            (-v) as u64
        };
        push_dec(&mut s, m);
    } else {
        push_dec(&mut s, v as u64);
    }
    assert(s@ =~= dec_int(v as int));
    s
}

/// `1` for true, `0` for false.
pub fn flag_text(b: bool) -> (s: String)
    ensures
        s@ == flag(b),
{
    int_text(if b { 1 } else { 0 })
}

/// The text of `km.<name>(<args>)`.
pub fn call_text(name: &str, args: &Vec<String>) -> (s: String)
    ensures
        s@ == call(name@, texts(args@)),
{
    let mut s = String::from_str("km.");
    s.append(name);
    s.append("(");
    let mut k: usize = 0;
    while k < args.len()
        invariant
            k <= args@.len(),
            s@ == "km."@ + name@ + "("@ + join_args(texts(args@).take(k as int)),
        decreases args@.len() - k,
    {
        if k > 0 {
            s.append(",");
        }
        s.append(args[k].as_str());
        proof {
            let t = texts(args@);
            assert(t.take(k + 1).drop_last() =~= t.take(k as int));
            if k == 0 {
                assert(join_args(t.take(1)) == t.take(1)[0]);
            }
        }
        k = k + 1;
    }
    s.append(")");
    assert(texts(args@).take(args@.len() as int) =~= texts(args@));
    s
}

/// `km.<name>()`.
pub fn call0(name: &str) -> (s: String)
    ensures
        s@ == call(name@, seq![]),
{
    let v: Vec<String> = Vec::new();
    assert(texts(v@) =~= seq![]);
    call_text(name, &v)
}

/// `km.<name>(<a>)`.
pub fn call1(name: &str, a: String) -> (s: String)
    ensures
        s@ == call(name@, seq![a@]),
{
    let mut v: Vec<String> = Vec::new();
    v.push(a);
    assert(texts(v@) =~= seq![a@]);
    call_text(name, &v)
}

/// `km.<name>(<a>,<b>)`.
pub fn call2(name: &str, a: String, b: String) -> (s: String)
    ensures
        s@ == call(name@, seq![a@, b@]),
{
    let mut v: Vec<String> = Vec::new();
    v.push(a);
    v.push(b);
    assert(texts(v@) =~= seq![a@, b@]);
    call_text(name, &v)
}

/// `km.<name>(<a>,<b>,<c>)`.
pub fn call3(name: &str, a: String, b: String, c: String) -> (s: String)
    ensures
        s@ == call(name@, seq![a@, b@, c@]),
{
    let mut v: Vec<String> = Vec::new();
    v.push(a);
    v.push(b);
    v.push(c);
    assert(texts(v@) =~= seq![a@, b@, c@]);
    call_text(name, &v)
}

/// A command with any number of arguments.
pub fn call_n(name: &str, args: Vec<String>) -> (s: String)
    ensures
        s@ == call(name@, texts(args@)),
{
    call_text(name, &args)
}


/// ASCII decimal digits of a natural number, most significant first.
pub open spec fn dec_bytes(n: nat) -> Seq<u8>
    decreases n,
{
    if n < 10 {
        seq![(n + 48) as u8]
    } else {
        dec_bytes(n / 10).push(((n % 10) + 48) as u8)
    }
}

/// Appends the ASCII decimal digits of `v`.
pub fn push_dec_bytes(out: &mut Vec<u8>, v: u64)
    ensures
        final(out)@ == old(out)@ + dec_bytes(v as nat),
    decreases v,
{
    if v >= 10 {
        push_dec_bytes(out, v / 10);
    }
    out.push(((v % 10) + 48) as u8);
    assert(final(out)@ =~= old(out)@ + dec_bytes(v as nat));
}

/// The byte is an ASCII decimal digit.
pub open spec fn is_digit(b: u8) -> bool {
    48 <= b <= 57
}

/// Value of a non-empty run of decimal digits.
pub open spec fn digits_value(s: Seq<u8>) -> nat
    decreases s.len(),
{
    if s.len() == 0 {
        0
    } else {
        digits_value(s.drop_last()) * 10 + (s.last() - 48) as nat
    }
}

/// The bytes are all decimal digits.
pub open spec fn all_digits(d: Seq<u8>) -> bool {
    forall|i: int| 0 <= i < d.len() ==> is_digit(#[trigger] d[i])
}

/// The bytes after an optional leading `+`.
pub open spec fn unsigned_digits(s: Seq<u8>) -> Seq<u8> {
    if s.len() > 0 && s[0] == 43 {
        s.skip(1)
    } else {
        s
    }
}

/// What `str::parse::<u32>` gives for these bytes: an optional `+`, then at
/// least one decimal digit and nothing else, within `u32` range.
pub open spec fn parse_dec_u32(s: Seq<u8>) -> Option<u32> {
    let d = unsigned_digits(s);
    if d.len() > 0 && all_digits(d) && digits_value(d) <= u32::MAX {
        Some(digits_value(d) as u32)
    } else {
        None
    }
}

/// Parses the bytes as a decimal `u32`, the way `str::parse::<u32>` does.
pub fn parse_u32_bytes(s: &[u8]) -> (r: Option<u32>)
    ensures
        r == parse_dec_u32(s@),
{
    let start: usize = if s.len() > 0 && s[0] == 43 {
        1
    } else {
        0
    };
    let ghost d = if s@.len() > 0 && s@[0] == 43 {
        s@.skip(1)
    } else {
        s@
    };
    assert(d =~= s@.skip(start as int));
    if start >= s.len() {
        return None;
    }
    let mut v: u64 = 0;
    let mut i: usize = start;
    while i < s.len()
        invariant
            start <= i <= s@.len(),
            d == s@.skip(start as int),
            d == unsigned_digits(s@),
            v == digits_value(d.take(i - start)),
            v <= u32::MAX,
            forall|j: int| 0 <= j < i - start ==> is_digit(#[trigger] d[j]),
        decreases s@.len() - i,
    {
        let b = s[i];
        if !(48 <= b && b <= 57) {
            assert(!is_digit(d[i - start]));
            assert(!all_digits(d));
            assert(parse_dec_u32(s@) is None);
            return None;
        }
        assert(d.take(i - start + 1).drop_last() =~= d.take(i - start));
        let nv: u64 = v * 10 + (b - 48) as u64;
        assert(nv == digits_value(d.take(i - start + 1)));
        if nv > 0xFFFF_FFFF {
            proof {
                lemma_digits_grow(d, (i - start + 1) as int);
            }
            assert(parse_dec_u32(s@) is None);
            return None;
        }
        v = nv;
        i = i + 1;
    }
    assert(d.take(s@.len() - start) =~= d);
    Some(v as u32)
}

/// Appending digits never makes the value smaller.
pub proof fn lemma_digits_grow(d: Seq<u8>, k: int)
    requires
        0 <= k <= d.len(),
    ensures
        digits_value(d.take(k)) <= digits_value(d),
    decreases d.len() - k,
{
    if k < d.len() {
        lemma_digits_grow(d, k + 1);
        assert(d.take(k + 1).drop_last() =~= d.take(k));
    } else {
        assert(d.take(k) =~= d);
    }
}

} // verus!
