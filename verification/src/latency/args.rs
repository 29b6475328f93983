use vstd::prelude::*;
use vstd::string::StrSliceExecFns;
use vstd::string::StringExecFns;

verus! {

/// Characters that `char::is_whitespace` accepts (Unicode White_Space).
pub open spec fn is_ws(c: char) -> bool {
    ||| c == '\t' || c == '\n' || c == '\u{0B}' || c == '\u{0C}' || c == '\r' || c == ' '
    ||| c == '\u{85}' || c == '\u{A0}' || c == '\u{1680}'
    ||| '\u{2000}' <= c <= '\u{200A}'
    ||| c == '\u{2028}' || c == '\u{2029}' || c == '\u{202F}' || c == '\u{205F}' || c == '\u{3000}'
}

/// `s` without its leading white space.
pub open spec fn trim_start(s: Seq<char>) -> Seq<char>
    decreases s.len(),
{
    if s.len() > 0 && is_ws(s[0]) {
        trim_start(s.drop_first())
    } else {
        s
    }
}

/// `s` without its trailing white space.
pub open spec fn trim_end(s: Seq<char>) -> Seq<char>
    decreases s.len(),
{
    if s.len() > 0 && is_ws(s.last()) {
        trim_end(s.drop_last())
    } else {
        s
    }
}

/// `str::trim`.
pub open spec fn trim(s: Seq<char>) -> Seq<char> {
    trim_end(trim_start(s))
}

/// The value of a digit in the given radix (10 or 16), if it is one.
pub open spec fn digit_value(c: char, radix: nat) -> Option<nat> {
    if '0' <= c <= '9' {
        Some((c as nat - 48) as nat)
    } else if radix == 16 && 'a' <= c <= 'f' {
        Some((c as nat - 87) as nat)
    } else if radix == 16 && 'A' <= c <= 'F' {
        Some((c as nat - 55) as nat)
    } else {
        None
    }
}

/// Every character is a digit in the radix.
pub open spec fn all_radix_digits(d: Seq<char>, radix: nat) -> bool {
    forall|i: int| 0 <= i < d.len() ==> (#[trigger] digit_value(d[i], radix)) is Some
}

/// The value of a run of digits.
pub open spec fn radix_value(d: Seq<char>, radix: nat) -> nat
    decreases d.len(),
{
    if d.len() == 0 {
        0
    } else {
        radix_value(d.drop_last(), radix) * radix + digit_value(d.last(), radix).unwrap_or(0)
    }
}

/// The characters after an optional leading `+`.
pub open spec fn after_plus(s: Seq<char>) -> Seq<char> {
    if s.len() > 0 && s[0] == '+' {
        s.skip(1)
    } else {
        s
    }
}

/// What `from_str_radix` gives for an unsigned type whose largest value is
/// `max`: an optional `+`, then at least one digit and nothing else, in range.
pub open spec fn parse_radix(s: Seq<char>, radix: nat, max: nat) -> Option<nat> {
    let d = after_plus(s);
    if d.len() > 0 && all_radix_digits(d, radix) && radix_value(d, radix) <= max {
        Some(radix_value(d, radix))
    } else {
        None
    }
}

/// A run of digits is at least as large as any of its prefixes.
pub proof fn lemma_radix_grow(d: Seq<char>, k: int, radix: nat)
    requires
        0 <= k <= d.len(),
        radix >= 1,
    ensures
        radix_value(d.take(k), radix) <= radix_value(d, radix),
    decreases d.len() - k,
{
    if k < d.len() {
        lemma_radix_grow(d, k + 1, radix);
        assert(d.take(k + 1).drop_last() =~= d.take(k));
        let v = radix_value(d.take(k), radix);
        assert(v * radix >= v) by (nonlinear_arith)
            requires
                radix >= 1,
        ;
    } else {
        assert(d.take(k) =~= d);
    }
}

/// Past the quotient, the product passes the dividend.
pub proof fn lemma_div_exceeded(v: int, r: int, m: int)
    requires
        r > 0,
        m >= 0,
        v > m / r,
    ensures
        v * r > m,
{
    vstd::arithmetic::div_mod::lemma_fundamental_div_mod(m, r);
    assert(v * r > m) by (nonlinear_arith)
        requires
            r > 0,
            m >= 0,
            v >= m / r + 1,
            m == r * (m / r) + m % r,
            m % r < r,
    ;
}

/// Up to the quotient, the product stays within the dividend.
pub proof fn lemma_div_within(v: int, r: int, m: int)
    requires
        r > 0,
        m >= 0,
        0 <= v <= m / r,
    ensures
        v * r <= m,
{
    vstd::arithmetic::div_mod::lemma_fundamental_div_mod(m, r);
    assert(v * r <= m) by (nonlinear_arith)
        requires
            r > 0,
            m >= 0,
            0 <= v <= m / r,
            m == r * (m / r) + m % r,
            m % r >= 0,
    ;
}

/// Parses `s` as an unsigned number in radix 10 or 16 no larger than `max`,
/// the way `from_str_radix` does.
pub fn parse_unsigned(s: &str, radix: u32, max: u64) -> (r: Option<u64>)
    requires
        radix == 10 || radix == 16,
        max >= 16,
    ensures
        match r {
            Some(v) => parse_radix(s@, radix as nat, max as nat) == Some(v as nat),
            None => parse_radix(s@, radix as nat, max as nat) is None,
        },
{
    let n = s.unicode_len();
    let start: usize = if n > 0 && s.get_char(0) == '+' {
        1
    } else {
        0
    };
    let ghost d = after_plus(s@);
    assert(d =~= s@.skip(start as int));
    if start >= n {
        return None;
    }
    let mut v: u64 = 0;
    let mut i: usize = start;
    while i < n
        invariant
            n == s@.len(),
            radix == 10 || radix == 16,
            max >= 16,
            start <= i <= n,
            d == after_plus(s@),
            d == s@.skip(start as int),
            v == radix_value(d.take(i - start), radix as nat),
            v <= max,
            all_radix_digits(d.take(i - start), radix as nat),
        decreases n - i,
    {
        let c = s.get_char(i);
        assert(c == d[i - start]);
        let dv: u64 = if '0' <= c && c <= '9' {
            (c as u32 - 48) as u64
        } else if radix == 16 && 'a' <= c && c <= 'f' {
            (c as u32 - 87) as u64
        } else if radix == 16 && 'A' <= c && c <= 'F' {
            (c as u32 - 55) as u64
        } else {
            assert(digit_value(d[i - start], radix as nat) is None);
            assert(!all_radix_digits(d, radix as nat));
            return None;
        };
        assert(digit_value(c, radix as nat) == Some(dv as nat));
        assert(d.take(i - start + 1).drop_last() =~= d.take(i - start));
        let ghost next = radix_value(d.take(i - start + 1), radix as nat);
        assert(next == v * (radix as nat) + dv);
        let q: u64 = (max - dv) / (radix as u64);
        if v > q {
            proof {
                lemma_div_exceeded(v as int, radix as int, (max - dv) as int);
                lemma_radix_grow(d, i - start + 1, radix as nat);
            }
            return None;
        }
        proof {
            lemma_div_within(v as int, radix as int, (max - dv) as int);
        }
        v = v * (radix as u64) + dv;
        i = i + 1;
        assert(all_radix_digits(d.take(i - start), radix as nat)) by {
            assert forall|j: int| 0 <= j < i - start implies (#[trigger] digit_value(
                d.take(i - start)[j],
                radix as nat,
            )) is Some by {
                if j < i - start - 1 {
                    assert(d.take(i - start)[j] == d.take(i - start - 1)[j]);
                }
            }
        }
    }
    assert(d.take(n - start) =~= d);
    Some(v)
}

/// What `parse_u16` reads: after trimming, `0x` or `0X` and hex digits, or
/// decimal digits, either with an optional `+`, no larger than `u16::MAX`.
pub open spec fn u16_text(s: Seq<char>) -> Option<nat> {
    let t = trim(s);
    if t.len() >= 2 && t[0] == '0' && (t[1] == 'x' || t[1] == 'X') {
        parse_radix(t.skip(2), 16, 0xffff)
    } else {
        parse_radix(t, 10, 0xffff)
    }
}

/// Removing leading white space one character at a time.
proof fn lemma_trim_start_step(s: Seq<char>, lo: int)
    requires
        0 <= lo < s.len(),
        is_ws(s[lo]),
    ensures
        trim_start(s.skip(lo)) == trim_start(s.skip(lo + 1)),
{
    assert(s.skip(lo).drop_first() =~= s.skip(lo + 1));
}

/// Removing trailing white space one character at a time.
proof fn lemma_trim_end_step(t: Seq<char>, k: int)
    requires
        0 < k <= t.len(),
        is_ws(t[k - 1]),
    ensures
        trim_end(t.take(k)) == trim_end(t.take(k - 1)),
{
    assert(t.take(k).drop_last() =~= t.take(k - 1));
}

/// The bounds of `s` without the white space at either end.
fn trim_bounds(s: &str) -> (r: (usize, usize))
    ensures
        r.0 <= r.1 <= s@.len(),
        trim(s@) == s@.subrange(r.0 as int, r.1 as int),
{
    let n = s.unicode_len();
    let mut lo: usize = 0;
    assert(s@.skip(0) =~= s@);
    while lo < n && is_whitespace(s.get_char(lo))
        invariant
            n == s@.len(),
            lo <= n,
            trim_start(s@) == trim_start(s@.skip(lo as int)),
        decreases n - lo,
    {
        proof {
            lemma_trim_start_step(s@, lo as int);
        }
        lo = lo + 1;
    }
    let ghost t = s@.skip(lo as int);
    assert(trim_start(s@) == t);
    let mut hi: usize = n;
    assert(t.take(n - lo) =~= t);
    while hi > lo && is_whitespace(s.get_char(hi - 1))
        invariant
            n == s@.len(),
            lo <= hi <= n,
            t == s@.skip(lo as int),
            trim(s@) == trim_end(t.take(hi - lo)),
        decreases hi,
    {
        proof {
            lemma_trim_end_step(t, hi - lo);
        }
        hi = hi - 1;
    }
    assert(t.take(hi - lo) =~= s@.subrange(lo as int, hi as int));
    (lo, hi)
}

/// `char::is_whitespace`.
fn is_whitespace(c: char) -> (r: bool)
    ensures
        r == is_ws(c),
{
    c == '\t' || c == '\n' || c == '\u{0B}' || c == '\u{0C}' || c == '\r' || c == ' '
        || c == '\u{85}' || c == '\u{A0}' || c == '\u{1680}' || ('\u{2000}' <= c && c
        <= '\u{200A}') || c == '\u{2028}' || c == '\u{2029}' || c == '\u{202F}' || c
        == '\u{205F}' || c == '\u{3000}'
}

/// Reads a vendor or product ID: decimal, or hex after `0x`, white space
/// around it allowed.
pub fn parse_u16(s: &str) -> (r: Option<u16>)
    ensures
        match r {
            Some(v) => u16_text(s@) == Some(v as nat),
            None => u16_text(s@) is None,
        },
{
    let (lo, hi) = trim_bounds(s);
    let t = s.substring_char(lo, hi);
    assert(t@ == trim(s@));
    let len = t.unicode_len();
    let parsed = if len >= 2 && t.get_char(0) == '0' && (t.get_char(1) == 'x' || t.get_char(1)
        == 'X') {
        let digits = t.substring_char(2, len);
        assert(digits@ =~= t@.skip(2));
        parse_unsigned(digits, 16, 0xffff)
    } else {
        parse_unsigned(t, 10, 0xffff)
    };
    match parsed {
        Some(v) => Some(v as u16),
        None => None,
    }
}

/// Whether two strings hold the same characters.
pub fn same_text(a: &str, b: &str) -> (r: bool)
    ensures
        r == (a@ == b@),
{
    let n = a.unicode_len();
    if n != b.unicode_len() {
        return false;
    }
    let mut k: usize = 0;
    while k < n
        invariant
            n == a@.len(),
            n == b@.len(),
            k <= n,
            a@.take(k as int) == b@.take(k as int),
        decreases n - k,
    {
        if a.get_char(k) != b.get_char(k) {
            assert(a@.take(k + 1)[k as int] != b@.take(k + 1)[k as int]);
            return false;
        }
        assert(a@.take(k + 1) =~= a@.take(k as int).push(a@[k as int]));
        assert(b@.take(k + 1) =~= b@.take(k as int).push(b@[k as int]));
        k = k + 1;
    }
    assert(a@.take(n as int) =~= a@);
    assert(b@.take(n as int) =~= b@);
    true
}

/// The meter's settings, as the command line gives them.
pub struct Args {
    pub serial: Option<String>,
    pub vid: Option<u16>,
    pub pid: Option<u16>,
    pub seconds: u64,
    pub seize: bool,
    pub csv: Option<String>,
    pub baud: u32,
    pub list: bool,
    pub list_serial: bool,
    pub debug: bool,
}

/// [`Args`] with its strings as character sequences.
pub struct ArgsView {
    pub serial: Option<Seq<char>>,
    pub vid: Option<u16>,
    pub pid: Option<u16>,
    pub seconds: u64,
    pub seize: bool,
    pub csv: Option<Seq<char>>,
    pub baud: u32,
    pub list: bool,
    pub list_serial: bool,
    pub debug: bool,
}

/// The text of an optional string.
pub open spec fn opt_text(s: Option<String>) -> Option<Seq<char>> {
    match s {
        Some(t) => Some(t@),
        None => None,
    }
}

impl View for Args {
    type V = ArgsView;

    open spec fn view(&self) -> ArgsView {
        ArgsView {
            serial: opt_text(self.serial),
            vid: self.vid,
            pid: self.pid,
            seconds: self.seconds,
            seize: self.seize,
            csv: opt_text(self.csv),
            baud: self.baud,
            list: self.list,
            list_serial: self.list_serial,
            debug: self.debug,
        }
    }
}

/// What the command line asks for.
pub enum ParsedArgs {
    /// `-h` or `--help`: print the usage and stop.
    Help,
    /// Run with these settings.
    Run(Args),
}

/// [`ParsedArgs`] with its strings as character sequences.
pub enum ParsedView {
    Help,
    Run(ArgsView),
}

/// The settings before any argument is read: 30 seconds at 4 000 000 baud.
pub open spec fn default_args() -> ArgsView {
    ArgsView {
        serial: None,
        vid: None,
        pid: None,
        seconds: 30,
        seize: false,
        csv: None,
        baud: 4_000_000,
        list: false,
        list_serial: false,
        debug: false,
    }
}

/// The arguments as character sequences.
pub open spec fn texts_of(argv: Seq<String>) -> Seq<Seq<char>> {
    argv.map_values(|s: String| s@)
}

/// Reads the arguments from position `i` on, into settings `a` so far.
pub open spec fn parse_from(argv: Seq<Seq<char>>, i: int, a: ArgsView) -> Result<
    ParsedView,
    Seq<char>,
>
    decreases argv.len() - i,
{
    if i < 0 || i >= argv.len() {
        Ok(ParsedView::Run(a))
    } else {
        let arg = argv[i];
        let has_value = i + 1 < argv.len();
        let v = argv[i + 1];
        if arg == "-h"@ || arg == "--help"@ {
            Ok(ParsedView::Help)
        } else if arg == "--list"@ {
            parse_from(argv, i + 1, ArgsView { list: true, ..a })
        } else if arg == "--list-serial"@ {
            parse_from(argv, i + 1, ArgsView { list_serial: true, ..a })
        } else if arg == "--seize"@ {
            parse_from(argv, i + 1, ArgsView { seize: true, ..a })
        } else if arg == "--debug"@ {
            parse_from(argv, i + 1, ArgsView { debug: true, ..a })
        } else if arg == "--serial"@ {
            if has_value {
                parse_from(argv, i + 2, ArgsView { serial: Some(v), ..a })
            } else {
                Err("--serial needs a value"@)
            }
        } else if arg == "--csv"@ {
            if has_value {
                parse_from(argv, i + 2, ArgsView { csv: Some(v), ..a })
            } else {
                Err("--csv needs a value"@)
            }
        } else if arg == "--vid"@ {
            if !has_value {
                Err("--vid needs a value"@)
            } else if let Some(n) = u16_text(v) {
                parse_from(argv, i + 2, ArgsView { vid: Some(n as u16), ..a })
            } else {
                Err("bad --vid "@ + v)
            }
        } else if arg == "--pid"@ {
            if !has_value {
                Err("--pid needs a value"@)
            } else if let Some(n) = u16_text(v) {
                parse_from(argv, i + 2, ArgsView { pid: Some(n as u16), ..a })
            } else {
                Err("bad --pid "@ + v)
            }
        } else if arg == "--seconds"@ {
            if !has_value {
                Err("--seconds needs a value"@)
            } else if let Some(n) = parse_radix(v, 10, u64::MAX as nat) {
                parse_from(argv, i + 2, ArgsView { seconds: n as u64, ..a })
            } else {
                Err("bad --seconds "@ + v)
            }
        } else if arg == "--baud"@ {
            if !has_value {
                Err("--baud needs a value"@)
            } else if let Some(n) = parse_radix(v, 10, u32::MAX as nat) {
                parse_from(argv, i + 2, ArgsView { baud: n as u32, ..a })
            } else {
                Err("bad --baud "@ + v)
            }
        } else {
            Err("unknown argument: "@ + arg)
        }
    }
}

/// What the whole command line asks for.
pub open spec fn parse_spec(argv: Seq<String>) -> Result<ParsedView, Seq<char>> {
    parse_from(texts_of(argv), 0, default_args())
}

/// `prefix` followed by `rest`, as a new string.
fn joined(prefix: &str, rest: &str) -> (r: String)
    ensures
        r@ == prefix@ + rest@,
{
    let mut s = String::from_str(prefix);
    s.append(rest);
    s
}

/// Reads the command line (without the program name). `-h`/`--help` stops
/// the reading at once; a flag that needs a value and has none, a value that
/// does not parse, or an unknown argument is an error with its message.
pub fn parse_args(argv: &Vec<String>) -> (r: Result<ParsedArgs, String>)
    ensures
        match r {
            Ok(ParsedArgs::Help) => parse_spec(argv@) == Ok::<ParsedView, Seq<char>>(
                ParsedView::Help,
            ),
            Ok(ParsedArgs::Run(a)) => parse_spec(argv@) == Ok::<ParsedView, Seq<char>>(
                ParsedView::Run(a@),
            ),
            Err(e) => parse_spec(argv@) == Err::<ParsedView, Seq<char>>(e@),
        },
{
    let mut a = Args {
        serial: None,
        vid: None,
        pid: None,
        seconds: 30,
        seize: false,
        csv: None,
        baud: 4_000_000,
        list: false,
        list_serial: false,
        debug: false,
    };
    let ghost t = texts_of(argv@);
    let n = argv.len();
    let mut i: usize = 0;
    while i < n
        invariant
            n == argv@.len(),
            t == texts_of(argv@),
            i <= n,
            parse_spec(argv@) == parse_from(t, i as int, a@),
        decreases n - i,
    {
        let arg = argv[i].as_str();
        assert(arg@ == t[i as int]);
        let has_value = i + 1 < n;
        if has_value {
            assert(argv[i + 1]@ == t[i + 1]);
        }
        if same_text(arg, "-h") || same_text(arg, "--help") {
            return Ok(ParsedArgs::Help);
        } else if same_text(arg, "--list") {
            a.list = true;
            i = i + 1;
        } else if same_text(arg, "--list-serial") {
            a.list_serial = true;
            i = i + 1;
        } else if same_text(arg, "--seize") {
            a.seize = true;
            i = i + 1;
        } else if same_text(arg, "--debug") {
            a.debug = true;
            i = i + 1;
        } else if same_text(arg, "--serial") {
            if !has_value {
                return Err(String::from_str("--serial needs a value"));
            }
            a.serial = Some(argv[i + 1].clone());
            i = i + 2;
        } else if same_text(arg, "--csv") {
            if !has_value {
                return Err(String::from_str("--csv needs a value"));
            }
            a.csv = Some(argv[i + 1].clone());
            i = i + 2;
        } else if same_text(arg, "--vid") {
            if !has_value {
                return Err(String::from_str("--vid needs a value"));
            }
            let v = argv[i + 1].as_str();
            match parse_u16(v) {
                Some(x) => a.vid = Some(x),
                None => return Err(joined("bad --vid ", v)),
            }
            i = i + 2;
        } else if same_text(arg, "--pid") {
            if !has_value {
                return Err(String::from_str("--pid needs a value"));
            }
            let v = argv[i + 1].as_str();
            match parse_u16(v) {
                Some(x) => a.pid = Some(x),
                None => return Err(joined("bad --pid ", v)),
            }
            i = i + 2;
        } else if same_text(arg, "--seconds") {
            if !has_value {
                return Err(String::from_str("--seconds needs a value"));
            }
            let v = argv[i + 1].as_str();
            match parse_unsigned(v, 10, u64::MAX) {
                Some(x) => a.seconds = x,
                None => return Err(joined("bad --seconds ", v)),
            }
            i = i + 2;
        } else if same_text(arg, "--baud") {
            if !has_value {
                return Err(String::from_str("--baud needs a value"));
            }
            let v = argv[i + 1].as_str();
            match parse_unsigned(v, 10, 0xffff_ffff) {
                Some(x) => a.baud = x as u32,
                None => return Err(joined("bad --baud ", v)),
            }
            i = i + 2;
        } else {
            return Err(joined("unknown argument: ", arg));
        }
    }
    Ok(ParsedArgs::Run(a))
}

/// A digit in radix 10 or 16, lower case past 9.
pub open spec fn digit_char(d: nat) -> char {
    if d < 10 {
        (d + 48) as char
    } else {
        (d + 87) as char
    }
}

/// The digits of `n` in the radix, most significant first, no leading zeros.
pub open spec fn digits_in(n: nat, radix: nat) -> Seq<char>
    decreases n,
{
    if n < radix || radix < 2 {
        seq![digit_char(n)]
    } else {
        proof {
            assert(n / radix < n) by (nonlinear_arith)
                requires
                    radix >= 2,
                    n >= radix,
            ;
        }
        digits_in(n / radix, radix).push(digit_char(n % radix))
    }
}

/// The digits of `n` read back as `n`.
pub proof fn lemma_digits_in(n: nat, radix: nat)
    requires
        radix == 10 || radix == 16,
    ensures
        digits_in(n, radix).len() > 0,
        all_radix_digits(digits_in(n, radix), radix),
        radix_value(digits_in(n, radix), radix) == n,
        n > 0 ==> digits_in(n, radix)[0] != '0',
        n == 0 ==> digits_in(n, radix).len() == 1,
    decreases n,
{
    let d = digits_in(n, radix);
    if n < radix {
        assert(d.drop_last() =~= Seq::<char>::empty());
        assert(digit_value(digit_char(n), radix) == Some(n));
        assert(radix_value(d.drop_last(), radix) == 0);
        assert(0nat * radix == 0) by (nonlinear_arith);
        assert(radix_value(d, radix) == 0nat * radix + n);
    } else {
        assert(n / radix < n) by (nonlinear_arith)
            requires
                radix >= 2,
                n >= radix,
        ;
        lemma_digits_in(n / radix, radix);
        let e = digits_in(n / radix, radix);
        assert(d.drop_last() =~= e);
        vstd::arithmetic::div_mod::lemma_fundamental_div_mod(n as int, radix as int);
        assert((n / radix) * radix == radix * (n / radix)) by (nonlinear_arith);
        assert(n % radix < radix);
        assert(digit_value(digit_char(n % radix), radix) == Some(n % radix));
        assert(radix_value(d, radix) == radix_value(e, radix) * radix + n % radix);
        assert(n / radix > 0) by (nonlinear_arith)
            requires
                radix >= 2,
                n >= radix,
        ;
        assert(d[0] == e[0]);
        assert forall|i: int| 0 <= i < d.len() implies (#[trigger] digit_value(d[i], radix)) is Some by {
            if i < e.len() {
                assert(d[i] == e[i]);
            }
        }
    }
}

/// A vendor or product ID written in decimal, or in hex after `0x`, reads
/// back as that ID.
pub proof fn lemma_u16_text_roundtrip(n: u16)
    ensures
        u16_text(digits_in(n as nat, 10)) == Some(n as nat),
        u16_text("0x"@ + digits_in(n as nat, 16)) == Some(n as nat),
{
    reveal_strlit("0x");
    lemma_digits_in(n as nat, 10);
    lemma_digits_in(n as nat, 16);
    let d = digits_in(n as nat, 10);
    let h = "0x"@ + digits_in(n as nat, 16);
    assert(digit_value(d[0], 10) is Some);
    assert(digit_value(d[d.len() - 1], 10) is Some);
    let g = digits_in(n as nat, 16);
    assert(digit_value(g[g.len() - 1], 16) is Some);
    assert(digit_value(g[0], 16) is Some);
    assert(h.last() == g[g.len() - 1]);
    assert(!is_ws(d[0]));
    assert(!is_ws(d.last()));
    assert(trim_start(d) == d);
    assert(trim_end(d) == d);
    assert(after_plus(d) == d);
    assert(h[0] == '0' && h[1] == 'x');
    assert(!is_ws(h.last()));
    assert(trim_start(h) == h);
    assert(trim_end(h) == h);
    assert(h.skip(2) =~= digits_in(n as nat, 16));
    assert(after_plus(h.skip(2)) == h.skip(2));
}

/// `flag` stands somewhere in `argv` from position `i` on.
pub open spec fn named_from(argv: Seq<Seq<char>>, i: int, flag: Seq<char>) -> bool {
    exists|k: int| i <= k < argv.len() && #[trigger] argv[k] == flag
}

/// Each option sets only its own setting: reading from position `i` into
/// settings `a`, a switch that comes out on was on already, and a setting
/// that comes out changed was changed, only if its option is named on the
/// command line from `i` on.
pub proof fn lemma_switches_from(argv: Seq<Seq<char>>, i: int, a: ArgsView)
    requires
        0 <= i,
    ensures
        parse_from(argv, i, a) matches Ok(ParsedView::Run(v)) ==> {
            &&& v.list ==> a.list || named_from(argv, i, "--list"@)
            &&& v.list_serial ==> a.list_serial || named_from(argv, i, "--list-serial"@)
            &&& v.seize ==> a.seize || named_from(argv, i, "--seize"@)
            &&& v.debug ==> a.debug || named_from(argv, i, "--debug"@)
            &&& v.serial != a.serial ==> named_from(argv, i, "--serial"@)
            &&& v.csv != a.csv ==> named_from(argv, i, "--csv"@)
            &&& v.vid != a.vid ==> named_from(argv, i, "--vid"@)
            &&& v.pid != a.pid ==> named_from(argv, i, "--pid"@)
            &&& v.seconds != a.seconds ==> named_from(argv, i, "--seconds"@)
            &&& v.baud != a.baud ==> named_from(argv, i, "--baud"@)
        },
    decreases argv.len() - i,
{
    if i < argv.len() {
        let arg = argv[i];
        if arg == "-h"@ || arg == "--help"@ {
        } else if arg == "--list"@ {
            lemma_switches_from(argv, i + 1, ArgsView { list: true, ..a });
        } else if arg == "--list-serial"@ {
            lemma_switches_from(argv, i + 1, ArgsView { list_serial: true, ..a });
        } else if arg == "--seize"@ {
            lemma_switches_from(argv, i + 1, ArgsView { seize: true, ..a });
        } else if arg == "--debug"@ {
            lemma_switches_from(argv, i + 1, ArgsView { debug: true, ..a });
        } else if i + 1 < argv.len() {
            let v = argv[i + 1];
            if arg == "--serial"@ {
                lemma_switches_from(argv, i + 2, ArgsView { serial: Some(v), ..a });
            } else if arg == "--csv"@ {
                lemma_switches_from(argv, i + 2, ArgsView { csv: Some(v), ..a });
            } else if arg == "--vid"@ {
                if let Some(n) = u16_text(v) {
                    lemma_switches_from(argv, i + 2, ArgsView { vid: Some(n as u16), ..a });
                }
            } else if arg == "--pid"@ {
                if let Some(n) = u16_text(v) {
                    lemma_switches_from(argv, i + 2, ArgsView { pid: Some(n as u16), ..a });
                }
            } else if arg == "--seconds"@ {
                if let Some(n) = parse_radix(v, 10, u64::MAX as nat) {
                    lemma_switches_from(argv, i + 2, ArgsView { seconds: n as u64, ..a });
                }
            } else if arg == "--baud"@ {
                if let Some(n) = parse_radix(v, 10, u32::MAX as nat) {
                    lemma_switches_from(argv, i + 2, ArgsView { baud: n as u32, ..a });
                }
            }
        }
    }
}

/// A setting differs from its default after reading the command line only
/// if the command line names its option: `--list` turns on the keyboard
/// listing and nothing else, and likewise every other option.
pub proof fn lemma_switches_named(argv: Seq<String>)
    ensures
        parse_spec(argv) matches Ok(ParsedView::Run(v)) ==> {
            &&& v.list ==> named_from(texts_of(argv), 0, "--list"@)
            &&& v.list_serial ==> named_from(texts_of(argv), 0, "--list-serial"@)
            &&& v.seize ==> named_from(texts_of(argv), 0, "--seize"@)
            &&& v.debug ==> named_from(texts_of(argv), 0, "--debug"@)
            &&& v.serial is Some ==> named_from(texts_of(argv), 0, "--serial"@)
            &&& v.csv is Some ==> named_from(texts_of(argv), 0, "--csv"@)
            &&& v.vid is Some ==> named_from(texts_of(argv), 0, "--vid"@)
            &&& v.pid is Some ==> named_from(texts_of(argv), 0, "--pid"@)
            &&& v.seconds != 30 ==> named_from(texts_of(argv), 0, "--seconds"@)
            &&& v.baud != 4_000_000 ==> named_from(texts_of(argv), 0, "--baud"@)
        },
{
    lemma_switches_from(texts_of(argv), 0, default_args());
}

} // verus!
