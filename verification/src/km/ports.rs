use vstd::prelude::*;
use vstd::string::StrSliceExecFns;

verus! {

/// What `str::to_lowercase` gives for a string.
pub uninterp spec fn lowercase_of(s: Seq<char>) -> Seq<char>;

/// `str::to_lowercase`: every character lower-cased by the Unicode rules of
/// the standard library. Nothing is claimed of the result but that it is a
/// function of the text.
#[verifier::external_body]
fn to_lowercase(s: &str) -> (r: String)
    ensures
        r@ == lowercase_of(s@),
{
    s.to_lowercase()
}

/// `t` occurs in `s` at some position.
pub open spec fn has_infix(s: Seq<char>, t: Seq<char>) -> bool {
    exists|i: int| 0 <= i && i + t.len() <= s.len() && #[trigger] s.subrange(i, i + t.len()) == t
}

/// Whether `t` occurs in `s`.
pub fn contains_text(s: &str, t: &str) -> (r: bool)
    ensures
        r == has_infix(s@, t@),
{
    let n = s.unicode_len();
    let m = t.unicode_len();
    if m > n {
        return false;
    }
    if m == 0 {
        assert(s@.subrange(0, 0 + t@.len() as int) =~= t@);
        return true;
    }
    let mut i: usize = 0;
    while i <= n - m
        invariant
            n == s@.len(),
            m == t@.len(),
            1 <= m <= n,
            i <= n - m + 1,
            forall|j: int| 0 <= j < i ==> #[trigger] s@.subrange(j, j + m) != t@,
        decreases n - m + 1 - i,
    {
        let mut k: usize = 0;
        let mut same = true;
        assert(s@.subrange(i as int, i as int) =~= t@.take(0));
        while k < m
            invariant
                n == s@.len(),
                m == t@.len(),
                i + m <= n,
                k <= m,
                same == (s@.subrange(i as int, i + k) == t@.take(k as int)),
            decreases m - k,
        {
            if same && s.get_char(i + k) != t.get_char(k) {
                assert(s@.subrange(i as int, i + k + 1)[k as int] != t@.take(k + 1)[k as int]);
                same = false;
            } else if same {
                assert(s@.subrange(i as int, i + k + 1) =~= s@.subrange(i as int, i + k).push(
                    s@[i + k],
                ));
                assert(t@.take(k + 1) =~= t@.take(k as int).push(t@[k as int]));
            } else {
                assert(s@.subrange(i as int, i + k) != t@.take(k as int));
                assert(s@.subrange(i as int, i + k + 1).take(k as int) =~= s@.subrange(i as int, i + k));
                assert(t@.take(k + 1).take(k as int) =~= t@.take(k as int));
            }
            k = k + 1;
        }
        assert(t@.take(m as int) =~= t@);
        if same {
            assert(s@.subrange(i as int, i + m) == t@);
            return true;
        }
        i = i + 1;
    }
    false
}

/// A port name that looks like a MAKCU: lower-cased, it holds `usbmodem`,
/// `usbserial` or `acm`.
pub open spec fn likely_makcu(lowered: Seq<char>) -> bool {
    has_infix(lowered, "usbmodem"@) || has_infix(lowered, "usbserial"@) || has_infix(lowered, "acm"@)
}

/// Picks a port: the first whose lower-cased name looks like a MAKCU, else
/// the first port, else none. `lowered` holds each name lower-cased.
pub fn choose_port(ports: &Vec<String>, lowered: &Vec<String>) -> (r: Option<String>)
    requires
        lowered@.len() == ports@.len(),
    ensures
        match r {
            Some(name) => {
                ||| exists|i: int|
                    0 <= i < ports@.len() && likely_makcu(lowered@[i]@) && name@ == ports@[i]@ && (
                    forall|j: int| 0 <= j < i ==> !likely_makcu(#[trigger] lowered@[j]@))
                ||| (forall|j: int| 0 <= j < ports@.len() ==> !likely_makcu(#[trigger] lowered@[j]@))
                    && ports@.len() > 0 && name@ == ports@[0]@
            },
            None => ports@.len() == 0,
        },
{
    let mut k: usize = 0;
    while k < ports.len()
        invariant
            lowered@.len() == ports@.len(),
            k <= ports@.len(),
            forall|j: int| 0 <= j < k ==> !likely_makcu(#[trigger] lowered@[j]@),
        decreases ports@.len() - k,
    {
        let u = lowered[k].as_str();
        if contains_text(u, "usbmodem") || contains_text(u, "usbserial") || contains_text(u, "acm") {
            assert(likely_makcu(lowered@[k as int]@));
            return Some(ports[k].clone());
        }
        k = k + 1;
    }
    if ports.len() > 0 {
        Some(ports[0].clone())
    } else {
        None
    }
}

/// Picks the most likely MAKCU port from the names the system lists (see
/// [`choose_port`]), lower-casing each name first.
pub fn autodetect_port(ports: &Vec<String>) -> (r: Option<String>)
    ensures
        match r {
            Some(name) => {
                ||| exists|i: int|
                    0 <= i < ports@.len() && likely_makcu(lowercase_of(ports@[i]@)) && name@
                        == ports@[i]@ && (forall|j: int|
                        0 <= j < i ==> !likely_makcu(#[trigger] lowercase_of(ports@[j]@)))
                ||| (forall|j: int|
                    0 <= j < ports@.len() ==> !likely_makcu(#[trigger] lowercase_of(ports@[j]@)))
                    && ports@.len() > 0 && name@ == ports@[0]@
            },
            None => ports@.len() == 0,
        },
{
    let mut lowered: Vec<String> = Vec::new();
    let mut k: usize = 0;
    while k < ports.len()
        invariant
            k <= ports@.len(),
            lowered@.len() == k,
            forall|j: int| 0 <= j < k ==> #[trigger] lowered@[j]@ == lowercase_of(ports@[j]@),
        decreases ports@.len() - k,
    {
        lowered.push(to_lowercase(ports[k].as_str()));
        k = k + 1;
    }
    let r = choose_port(ports, &lowered);
    proof {
        match r {
            Some(ref name) => {
                if exists|i: int|
                    0 <= i < ports@.len() && likely_makcu(lowered@[i]@) && name@ == ports@[i]@ && (
                    forall|j: int| 0 <= j < i ==> !likely_makcu(#[trigger] lowered@[j]@)) {
                    let i = choose|i: int|
                        0 <= i < ports@.len() && likely_makcu(lowered@[i]@) && name@ == ports@[i]@ && (
                        forall|j: int| 0 <= j < i ==> !likely_makcu(#[trigger] lowered@[j]@));
                    assert(lowered@[i]@ == lowercase_of(ports@[i]@));
                    assert forall|j: int| 0 <= j < i implies !likely_makcu(
                        #[trigger] lowercase_of(ports@[j]@),
                    ) by {
                        assert(lowered@[j]@ == lowercase_of(ports@[j]@));
                    }
                } else {
                    assert forall|j: int| 0 <= j < ports@.len() implies !likely_makcu(
                        #[trigger] lowercase_of(ports@[j]@),
                    ) by {
                        assert(lowered@[j]@ == lowercase_of(ports@[j]@));
                    }
                }
            },
            None => {},
        }
    }
    r
}

/// A lower-cased name holding `usbmodem`, `usbserial` or `acm` anywhere is a
/// likely MAKCU, and a likely MAKCU holds one of the three somewhere.
pub proof fn lemma_likely_makcu_names(l: Seq<char>, i: int)
    ensures
        0 <= i && i + 8 <= l.len() && l.subrange(i, i + 8) == "usbmodem"@ ==> likely_makcu(l),
        0 <= i && i + 9 <= l.len() && l.subrange(i, i + 9) == "usbserial"@ ==> likely_makcu(l),
        0 <= i && i + 3 <= l.len() && l.subrange(i, i + 3) == "acm"@ ==> likely_makcu(l),
        likely_makcu(l) ==> exists|k: int|
            0 <= k && (k + 8 <= l.len() && #[trigger] l.subrange(k, k + 8) == "usbmodem"@
                || k + 9 <= l.len() && l.subrange(k, k + 9) == "usbserial"@
                || k + 3 <= l.len() && l.subrange(k, k + 3) == "acm"@),
{
    reveal_strlit("usbmodem");
    reveal_strlit("usbserial");
    reveal_strlit("acm");
    if 0 <= i && i + 8 <= l.len() && l.subrange(i, i + 8) == "usbmodem"@ {
        assert(l.subrange(i, i + "usbmodem"@.len()) == "usbmodem"@);
    }
    if 0 <= i && i + 9 <= l.len() && l.subrange(i, i + 9) == "usbserial"@ {
        assert(l.subrange(i, i + "usbserial"@.len()) == "usbserial"@);
    }
    if 0 <= i && i + 3 <= l.len() && l.subrange(i, i + 3) == "acm"@ {
        assert(l.subrange(i, i + "acm"@.len()) == "acm"@);
    }
    if likely_makcu(l) {
        if has_infix(l, "usbmodem"@) {
            let k = choose|k: int|
                0 <= k && k + "usbmodem"@.len() <= l.len() && #[trigger] l.subrange(
                    k,
                    k + "usbmodem"@.len(),
                ) == "usbmodem"@;
            assert(l.subrange(k, k + 8) == "usbmodem"@);
        } else if has_infix(l, "usbserial"@) {
            let k = choose|k: int|
                0 <= k && k + "usbserial"@.len() <= l.len() && #[trigger] l.subrange(
                    k,
                    k + "usbserial"@.len(),
                ) == "usbserial"@;
            assert(l.subrange(k, k + 8) == l.subrange(k, k + 8));
            assert(l.subrange(k, k + 9) == "usbserial"@);
        } else {
            let k = choose|k: int|
                0 <= k && k + "acm"@.len() <= l.len() && #[trigger] l.subrange(k, k + "acm"@.len())
                    == "acm"@;
            assert(l.subrange(k, k + 3) == "acm"@);
            assert(l.subrange(k, k + 8) == l.subrange(k, k + 8));
        }
    }
}

} // verus!
