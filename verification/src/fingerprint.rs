//! The crawl fingerprint: a stable 32-hex-character id derived from the
//! requested address and the two numeric bounds alone, so that requests
//! differing only in flags share a stored result.

use vstd::prelude::*;

verus! {

/// The decimal digit character for a value below ten.
pub open spec fn spec_digit(d: nat) -> char {
    if d == 0 {
        '0'
    } else if d == 1 {
        '1'
    } else if d == 2 {
        '2'
    } else if d == 3 {
        '3'
    } else if d == 4 {
        '4'
    } else if d == 5 {
        '5'
    } else if d == 6 {
        '6'
    } else if d == 7 {
        '7'
    } else if d == 8 {
        '8'
    } else {
        '9'
    }
}

/// The decimal rendering of a number, most significant digit first.
pub open spec fn spec_digits(n: nat) -> Seq<char>
    decreases n,
{
    if n < 10 {
        seq![spec_digit(n)]
    } else {
        spec_digits(n / 10).push(spec_digit(n % 10))
    }
}

/// The lower-case hex digit character for a value below sixteen.
pub open spec fn spec_hex_digit(d: nat) -> char {
    if d < 10 {
        spec_digit(d)
    } else if d == 10 {
        'a'
    } else if d == 11 {
        'b'
    } else if d == 12 {
        'c'
    } else if d == 13 {
        'd'
    } else if d == 14 {
        'e'
    } else {
        'f'
    }
}

/// The lower-case hex rendering of a byte string, two digits per byte.
pub open spec fn spec_hex(bytes: Seq<u8>) -> Seq<char>
    decreases bytes.len(),
{
    if bytes.len() == 0 {
        Seq::empty()
    } else {
        spec_hex(bytes.drop_last()) + seq![
            spec_hex_digit((bytes.last() / 16) as nat),
            spec_hex_digit((bytes.last() % 16) as nat),
        ]
    }
}

/// The hex rendering is two characters per byte.
pub proof fn lemma_spec_hex_len(bytes: Seq<u8>)
    ensures
        spec_hex(bytes).len() == 2 * bytes.len(),
    decreases bytes.len(),
{
    if bytes.len() > 0 {
        lemma_spec_hex_len(bytes.drop_last());
    }
}

/// One decimal digit as text.
fn digit_str(d: usize) -> (r: &'static str)
    requires
        d < 10,
    ensures
        r@ == seq![spec_digit(d as nat)],
{
    let r: &'static str = match d {
        0 => "0",
        1 => "1",
        2 => "2",
        3 => "3",
        4 => "4",
        5 => "5",
        6 => "6",
        7 => "7",
        8 => "8",
        _ => "9",
    };
    proof {
        reveal_strlit("0");
        reveal_strlit("1");
        reveal_strlit("2");
        reveal_strlit("3");
        reveal_strlit("4");
        reveal_strlit("5");
        reveal_strlit("6");
        reveal_strlit("7");
        reveal_strlit("8");
        reveal_strlit("9");
        assert(r@ =~= seq![spec_digit(d as nat)]);
    }
    r
}

/// One lower-case hex digit as text.
fn hex_digit_str(d: u8) -> (r: &'static str)
    requires
        d < 16,
    ensures
        r@ == seq![spec_hex_digit(d as nat)],
{
    if d < 10 {
        digit_str(d as usize)
    } else {
        let r: &'static str = match d {
            10 => "a",
            11 => "b",
            12 => "c",
            13 => "d",
            14 => "e",
            _ => "f",
        };
        proof {
            reveal_strlit("a");
            reveal_strlit("b");
            reveal_strlit("c");
            reveal_strlit("d");
            reveal_strlit("e");
            reveal_strlit("f");
            assert(r@ =~= seq![spec_hex_digit(d as nat)]);
        }
        r
    }
}

/// The decimal rendering of a number.
pub fn usize_to_digits(n: usize) -> (r: String)
    ensures
        r@ == spec_digits(n as nat),
    decreases n,
{
    if n < 10 {
        digit_str(n).to_owned()
    } else {
        proof {
            assert(n / 10 < n) by (nonlinear_arith)
                requires
                    n >= 10,
            ;
        }
        let mut prefix = usize_to_digits(n / 10);
        prefix.append(digit_str(n % 10));
        proof {
            assert(prefix@ =~= spec_digits((n / 10) as nat).push(spec_digit((n % 10) as nat)));
        }
        prefix
    }
}

/// The lower-case hex rendering of a byte string.
pub fn bytes_to_hex(bytes: &Vec<u8>) -> (r: String)
    ensures
        r@ == spec_hex(bytes@),
{
    let mut out = String::new();
    let n = bytes.len();
    proof {
        assert(bytes@.take(0) =~= Seq::<u8>::empty());
    }
    for i in 0..n
        invariant
            n == bytes@.len(),
            out@ == spec_hex(bytes@.take(i as int)),
    {
        let b = bytes[i];
        out.append(hex_digit_str(b / 16));
        out.append(hex_digit_str(b % 16));
        proof {
            assert(bytes@.take(i + 1).drop_last() =~= bytes@.take(i as int));
            assert(bytes@.take(i + 1).last() == bytes@[i as int]);
            assert(out@ =~= spec_hex(bytes@.take(i as int)) + seq![
                spec_hex_digit((bytes@[i as int] / 16) as nat),
                spec_hex_digit((bytes@[i as int] % 16) as nat),
            ]);
        }
    }
    proof {
        assert(bytes@.take(n as int) =~= bytes@);
    }
    out
}

/// The MD5 digest of a text; what its bytes are is the `md5` crate's
/// affair.
pub uninterp spec fn md5_digest_of(s: Seq<char>) -> Seq<u8>;

/// Relies on `md5::compute`: the digest is sixteen bytes and depends on
/// the input text alone.
#[verifier::external_body]
fn md5_digest(s: &str) -> (r: Vec<u8>)
    ensures
        r@ == md5_digest_of(s@),
        r@.len() == 16,
{
    md5::compute(s).0.to_vec()
}

/// One bound's part of the rendering: `n` for an absent bound, `s` and
/// the decimal digits for a present one.
pub open spec fn spec_render_opt(v: Option<usize>) -> Seq<char> {
    match v {
        None => seq!['n'],
        Some(x) => seq!['s'] + spec_digits(x as nat),
    }
}

/// The stable text hashed for the fingerprint: both bounds, then the
/// address, separated by `|`.
pub open spec fn spec_render(address: Seq<char>, d: Option<usize>, p: Option<usize>) -> Seq<char> {
    spec_render_opt(d) + seq!['|'] + spec_render_opt(p) + seq!['|'] + address
}

/// The fingerprint of a request triple.
pub open spec fn spec_fingerprint(
    address: Seq<char>,
    d: Option<usize>,
    p: Option<usize>,
) -> Seq<char> {
    spec_hex(md5_digest_of(spec_render(address, d, p)))
}

/// One bound rendered as text.
fn render_opt(v: &Option<usize>) -> (r: String)
    ensures
        r@ == spec_render_opt(*v),
{
    match v {
        None => {
            let out = String::from_str("n");
            proof {
                reveal_strlit("n");
                assert(out@ =~= seq!['n']);
            }
            out
        },
        Some(x) => {
            let mut out = String::from_str("s");
            out.append(usize_to_digits(*x).as_str());
            proof {
                reveal_strlit("s");
                assert(out@ =~= seq!['s'] + spec_digits(*x as nat));
            }
            out
        },
    }
}

/// The request text that the fingerprint hashes.
fn render_request(address: &str, d: &Option<usize>, p: &Option<usize>) -> (r: String)
    ensures
        r@ == spec_render(address@, *d, *p),
{
    let mut out = render_opt(d);
    out.append("|");
    let second = render_opt(p);
    out.append(second.as_str());
    out.append("|");
    out.append(address);
    proof {
        reveal_strlit("|");
        assert("|"@ =~= seq!['|']);
        assert(out@ =~= spec_render(address@, *d, *p));
    }
    out
}

/// A crawl request as submitted: the address, the optional bounds, and
/// the two flags, which the fingerprint deliberately ignores.
pub struct Input {
    pub address: String,
    pub max_depth: Option<usize>,
    pub max_pages: Option<usize>,
    pub robots_txt: Option<bool>,
    pub archive_pages: Option<bool>,
}

impl Input {
    /// The request's stable 32-hex-character id.
    pub fn generate_hash(&self) -> (r: String)
        ensures
            r@ == spec_fingerprint(self.address@, self.max_depth, self.max_pages),
            r@.len() == 32,
    {
        let rendered = render_request(self.address.as_str(), &self.max_depth, &self.max_pages);
        let digest = md5_digest(rendered.as_str());
        let out = bytes_to_hex(&digest);
        proof {
            lemma_spec_hex_len(digest@);
        }
        out
    }
}

/// A decimal rendering is never empty, and spans two or more digits
/// exactly for values of ten and above.
pub proof fn lemma_digits_len(n: nat)
    ensures
        spec_digits(n).len() >= 1,
        n >= 10 ==> spec_digits(n).len() >= 2,
    decreases n,
{
    if n >= 10 {
        lemma_digits_len(n / 10);
    }
}

/// Decimal renderings hold digit characters only, never the separator.
pub proof fn lemma_digits_no_sep(n: nat)
    ensures
        forall|i: int| 0 <= i < spec_digits(n).len() ==> spec_digits(n)[i] != '|',
    decreases n,
{
    if n < 10 {
        assert(spec_digits(n).len() == 1);
        assert(spec_digits(n)[0] == spec_digit(n));
    } else {
        lemma_digits_no_sep(n / 10);
        assert forall|i: int| 0 <= i < spec_digits(n).len() implies spec_digits(n)[i] != '|' by {
            if i < spec_digits(n).len() - 1 {
                assert(spec_digits(n)[i] == spec_digits(n / 10)[i]);
            } else {
                assert(spec_digits(n)[i] == spec_digit(n % 10));
            }
        }
    }
}

/// Two values with the same decimal rendering are the same value.
pub proof fn lemma_digits_injective(n1: nat, n2: nat)
    requires
        spec_digits(n1) == spec_digits(n2),
    ensures
        n1 == n2,
    decreases n1,
{
    lemma_digits_len(n1);
    lemma_digits_len(n2);
    if n1 < 10 && n2 < 10 {
        assert(spec_digits(n1)[0] == spec_digit(n1));
        assert(spec_digits(n2)[0] == spec_digit(n2));
    } else if n1 < 10 {
        assert(spec_digits(n1).len() == 1);
    } else if n2 < 10 {
        assert(spec_digits(n2).len() == 1);
    } else {
        assert(spec_digits(n1).last() == spec_digit(n1 % 10));
        assert(spec_digits(n2).last() == spec_digit(n2 % 10));
        assert(n1 % 10 == n2 % 10);
        assert(spec_digits(n1).drop_last() =~= spec_digits(n1 / 10));
        assert(spec_digits(n2).drop_last() =~= spec_digits(n2 / 10));
        lemma_digits_injective(n1 / 10, n2 / 10);
    }
}

/// A bound's rendering never holds the separator.
pub proof fn lemma_render_opt_no_sep(v: Option<usize>)
    ensures
        forall|i: int| 0 <= i < spec_render_opt(v).len() ==> spec_render_opt(v)[i] != '|',
{
    match v {
        None => {},
        Some(x) => {
            lemma_digits_no_sep(x as nat);
        },
    }
}

/// Two bounds with the same rendering are the same bound.
pub proof fn lemma_render_opt_injective(v1: Option<usize>, v2: Option<usize>)
    requires
        spec_render_opt(v1) == spec_render_opt(v2),
    ensures
        v1 == v2,
{
    match (v1, v2) {
        (None, None) => {},
        (None, Some(x)) => {
            assert(spec_render_opt(v1)[0] == 'n');
            assert(spec_render_opt(v2)[0] == 's');
        },
        (Some(x), None) => {
            assert(spec_render_opt(v1)[0] == 's');
            assert(spec_render_opt(v2)[0] == 'n');
        },
        (Some(x1), Some(x2)) => {
            assert(spec_render_opt(v1).drop_first() =~= spec_digits(x1 as nat));
            assert(spec_render_opt(v2).drop_first() =~= spec_digits(x2 as nat));
            lemma_digits_injective(x1 as nat, x2 as nat);
        },
    }
}

/// A text with one marked separator splits in only one way, as long as
/// neither prefix holds the separator itself.
pub proof fn lemma_sep_split(x1: Seq<char>, y1: Seq<char>, x2: Seq<char>, y2: Seq<char>)
    requires
        x1 + seq!['|'] + y1 == x2 + seq!['|'] + y2,
        forall|i: int| 0 <= i < x1.len() ==> x1[i] != '|',
        forall|i: int| 0 <= i < x2.len() ==> x2[i] != '|',
    ensures
        x1 == x2,
        y1 == y2,
{
    let s1 = x1 + seq!['|'] + y1;
    let s2 = x2 + seq!['|'] + y2;
    assert(s1.len() == x1.len() + 1 + y1.len());
    assert(s2.len() == x2.len() + 1 + y2.len());
    if x1.len() < x2.len() {
        assert(s1[x1.len() as int] == '|');
        assert(s2[x1.len() as int] == x2[x1.len() as int]);
        assert(false);
    }
    if x2.len() < x1.len() {
        assert(s2[x2.len() as int] == '|');
        assert(s1[x2.len() as int] == x1[x2.len() as int]);
        assert(false);
    }
    assert forall|i: int| 0 <= i < x1.len() implies x1[i] == x2[i] by {
        assert(s1[i] == x1[i]);
        assert(s2[i] == x2[i]);
    }
    assert(x1 =~= x2);
    assert(y1.len() == y2.len());
    assert forall|i: int| 0 <= i < y1.len() implies y1[i] == y2[i] by {
        assert(0 <= x1.len() + 1 + i < s1.len());
        assert(s1[x1.len() + 1 + i] == y1[i]);
        assert(s2[x2.len() + 1 + i] == y2[i]);
    }
    assert(y1 =~= y2);
}

/// Distinct request triples always hash distinct texts: two fingerprints
/// coincide only where the digests of distinct texts do.
pub proof fn lemma_render_injective(
    a1: Seq<char>,
    d1: Option<usize>,
    p1: Option<usize>,
    a2: Seq<char>,
    d2: Option<usize>,
    p2: Option<usize>,
)
    requires
        spec_render(a1, d1, p1) == spec_render(a2, d2, p2),
    ensures
        a1 == a2,
        d1 == d2,
        p1 == p2,
{
    let tail1 = spec_render_opt(p1) + seq!['|'] + a1;
    let tail2 = spec_render_opt(p2) + seq!['|'] + a2;
    assert(spec_render(a1, d1, p1) =~= spec_render_opt(d1) + seq!['|'] + tail1);
    assert(spec_render(a2, d2, p2) =~= spec_render_opt(d2) + seq!['|'] + tail2);
    lemma_render_opt_no_sep(d1);
    lemma_render_opt_no_sep(d2);
    lemma_sep_split(spec_render_opt(d1), tail1, spec_render_opt(d2), tail2);
    lemma_render_opt_injective(d1, d2);
    lemma_render_opt_no_sep(p1);
    lemma_render_opt_no_sep(p2);
    lemma_sep_split(spec_render_opt(p1), a1, spec_render_opt(p2), a2);
    lemma_render_opt_injective(p1, p2);
}

/// The fingerprint reads only the address and the two bounds: two
/// requests that agree on those three share an id whatever their flags.
pub proof fn lemma_fingerprint_ignores_flags(a: Input, b: Input)
    requires
        a.address@ == b.address@,
        a.max_depth == b.max_depth,
        a.max_pages == b.max_pages,
    ensures
        spec_fingerprint(a.address@, a.max_depth, a.max_pages) == spec_fingerprint(
            b.address@,
            b.max_depth,
            b.max_pages,
        ),
{
}

/// An absent bound never renders like a present one, so the two hash
/// different texts.
pub proof fn lemma_render_opt_distinguishes(x: usize)
    ensures
        spec_render_opt(None) != spec_render_opt(Some(x)),
{
    assert(spec_render_opt(None)[0] == 'n');
    assert(spec_render_opt(Some(x))[0] == 's');
}

} // verus!
