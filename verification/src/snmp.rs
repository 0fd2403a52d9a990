//! SNMP agent logic: object identifiers, the MIB and request processing.

use vstd::prelude::*;
use vstd::string::*;
use crate::error::{GatewayError, GatewayResult};
use crate::text::{decimal, digit_char, u64_text, chars_of, join2, push_char};

verus! {

/// The value of an ASCII digit character.
pub open spec fn digit_value(c: char) -> int {
    (c as int) - ('0' as int)
}

/// Whether a character is an ASCII digit.
pub open spec fn is_digit(c: char) -> bool {
    '0' <= c && c <= '9'
}

/// Whether every character of `d` is an ASCII digit.
pub open spec fn all_digits(d: Seq<char>) -> bool {
    forall|i: int| 0 <= i < d.len() ==> is_digit(#[trigger] d[i])
}

/// The number written by a string of decimal digits.
pub open spec fn digits_value(d: Seq<char>) -> int
    decreases d.len(),
{
    if d.len() == 0 {
        0
    } else {
        digits_value(d.drop_last()) * 10 + digit_value(d.last())
    }
}

/// What `str::parse::<u32>` gives for a text: an optional `+`, then at least one
/// decimal digit, with a value that fits in 32 bits.
pub open spec fn parse_u32_text(p: Seq<char>) -> Option<u32> {
    let d = if p.len() > 0 && p[0] == '+' { p.drop_first() } else { p };
    if d.len() > 0 && all_digits(d) && digits_value(d) <= u32::MAX {
        Some(digits_value(d) as u32)
    } else {
        None
    }
}

/// The pieces of a text between dots, as `split('.')` gives them.
pub open spec fn dot_parts(s: Seq<char>) -> Seq<Seq<char>>
    decreases s.len(),
{
    if s.len() == 0 {
        seq![Seq::<char>::empty()]
    } else {
        let p = dot_parts(s.drop_last());
        if s.last() == '.' {
            p.push(Seq::<char>::empty())
        } else {
            p.update(p.len() - 1, p.last().push(s.last()))
        }
    }
}

/// The components written by a list of pieces; empty pieces are skipped and
/// any other piece that is no `u32` makes the whole list invalid.
pub open spec fn parse_parts(ps: Seq<Seq<char>>) -> Option<Seq<u32>>
    decreases ps.len(),
{
    if ps.len() == 0 {
        Some(Seq::<u32>::empty())
    } else {
        match parse_parts(ps.drop_last()) {
            None => None,
            Some(done) => {
                if ps.last().len() == 0 {
                    Some(done)
                } else {
                    match parse_u32_text(ps.last()) {
                        None => None,
                        Some(v) => Some(done.push(v)),
                    }
                }
            },
        }
    }
}

/// The components of the dotted text `s`, if it is a valid OID.
pub open spec fn oid_components(s: Seq<char>) -> Option<Seq<u32>> {
    parse_parts(dot_parts(s))
}

/// The dotted text of a list of components.
pub open spec fn oid_text(c: Seq<u32>) -> Seq<char>
    decreases c.len(),
{
    if c.len() == 0 {
        Seq::<char>::empty()
    } else if c.len() == 1 {
        decimal(c[0] as nat)
    } else {
        oid_text(c.drop_last()).push('.') + decimal(c.last() as nat)
    }
}

proof fn lemma_dot_parts_nonempty(s: Seq<char>)
    ensures
        dot_parts(s).len() >= 1,
    decreases s.len(),
{
    if s.len() > 0 {
        lemma_dot_parts_nonempty(s.drop_last());
    }
}

/// Object Identifier (OID)
pub struct Oid {
    pub components: Vec<u32>,
}

impl View for Oid {
    type V = Seq<u32>;

    open spec fn view(&self) -> Seq<u32> {
        self.components@
    }
}

/// Where the scan of one piece of an OID text stands.
enum PieceScan {
    Empty,
    Plus,
    Digits(u64),
    Invalid,
}

/// What the scan of `p` from its start has found so far.
spec fn scan_matches(p: Seq<char>, st: PieceScan) -> bool {
    match st {
        PieceScan::Empty => p.len() == 0,
        PieceScan::Plus => p == seq!['+'],
        PieceScan::Digits(v) => {
            let d = if p[0] == '+' { p.drop_first() } else { p };
            &&& p.len() > 0
            &&& d.len() > 0
            &&& all_digits(d)
            &&& v == digits_value(d)
            &&& v <= u32::MAX
        },
        PieceScan::Invalid => p.len() > 0 && parse_u32_text(p) is None && forall|q: Seq<char>|
            #![trigger (p + q)] q.len() > 0 ==> parse_u32_text(p + q) is None,
    }
}

proof fn lemma_digits_value_nonneg(d: Seq<char>)
    requires
        all_digits(d),
    ensures
        digits_value(d) >= 0,
    decreases d.len(),
{
    if d.len() > 0 {
        assert(d.drop_last() =~= d.subrange(0, d.len() - 1));
        assert(all_digits(d.drop_last()));
        lemma_digits_value_nonneg(d.drop_last());
        assert(is_digit(d[d.len() - 1]));
    }
}

proof fn lemma_digit_char(k: nat)
    requires
        k < 10,
    ensures
        is_digit(digit_char(k)),
        digit_value(digit_char(k)) == k,
{
    assert('0' as int == 48 && '9' as int == 57);
    if k == 0 { assert('0' as int == 48); }
    else if k == 1 { assert('1' as int == 49); }
    else if k == 2 { assert('2' as int == 50); }
    else if k == 3 { assert('3' as int == 51); }
    else if k == 4 { assert('4' as int == 52); }
    else if k == 5 { assert('5' as int == 53); }
    else if k == 6 { assert('6' as int == 54); }
    else if k == 7 { assert('7' as int == 55); }
    else if k == 8 { assert('8' as int == 56); }
    else { assert('9' as int == 57); }
}

/// The decimal text of a number is a non-empty run of digits that reads back
/// as the number.
pub(crate) proof fn lemma_decimal_digits(n: nat)
    ensures
        decimal(n).len() >= 1,
        all_digits(decimal(n)),
        digits_value(decimal(n)) == n,
    decreases n,
{
    lemma_digit_char(n % 10);
    if n < 10 {
        assert(n % 10 == n);
        let d = decimal(n);
        assert(d.drop_last() =~= Seq::<char>::empty());
        assert(digits_value(Seq::<char>::empty()) == 0);
    } else {
        lemma_decimal_digits(n / 10);
        let d = decimal(n);
        assert(d == decimal(n / 10).push(digit_char(n % 10)));
        assert(d.drop_last() =~= decimal(n / 10));
        assert forall|i: int| 0 <= i < d.len() implies is_digit(#[trigger] d[i]) by {
            if i < d.len() - 1 {
                assert(d[i] == decimal(n / 10)[i]);
            }
        }
        assert(digits_value(d) == (n / 10) * 10 + n % 10);
        assert((n / 10) * 10 + n % 10 == n) by (nonlinear_arith);
    }
}

/// Appending text without a dot only extends the last piece.
proof fn lemma_dot_parts_extend(t: Seq<char>, d: Seq<char>)
    requires
        forall|i: int| 0 <= i < d.len() ==> #[trigger] d[i] != '.',
    ensures
        dot_parts(t + d) == dot_parts(t).update(dot_parts(t).len() - 1, dot_parts(t).last() + d),
    decreases d.len(),
{
    lemma_dot_parts_nonempty(t);
    if d.len() == 0 {
        assert(t + d =~= t);
        assert(dot_parts(t).last() + d =~= dot_parts(t).last());
        assert(dot_parts(t).update(dot_parts(t).len() - 1, dot_parts(t).last()) =~= dot_parts(t));
    } else {
        let e = d.drop_last();
        lemma_dot_parts_extend(t, e);
        assert((t + d).drop_last() =~= t + e);
        assert((t + d).last() == d.last());
        let p = dot_parts(t);
        assert((p.last() + e).push(d.last()) =~= p.last() + d);
    }
}

/// The pieces of an OID's text are the decimal texts of its components.
proof fn lemma_dot_parts_oid_text(c: Seq<u32>)
    requires
        c.len() >= 1,
    ensures
        dot_parts(oid_text(c)) == Seq::new(c.len(), |i: int| decimal(c[i] as nat)),
    decreases c.len(),
{
    let v = c.last();
    lemma_decimal_digits(v as nat);
    assert forall|i: int| 0 <= i < decimal(v as nat).len() implies #[trigger] decimal(v as nat)[i] != '.' by {
        assert(is_digit(decimal(v as nat)[i]));
    }
    if c.len() == 1 {
        assert(Seq::<char>::empty() + decimal(c[0] as nat) =~= decimal(c[0] as nat));
        lemma_dot_parts_extend(Seq::<char>::empty(), decimal(c[0] as nat));
        assert(Seq::<char>::empty() + decimal(c[0] as nat) =~= decimal(c[0] as nat));
        assert(dot_parts(oid_text(c)) =~= Seq::new(c.len(), |i: int| decimal(c[i] as nat)));
    } else {
        let t = oid_text(c.drop_last());
        lemma_dot_parts_oid_text(c.drop_last());
        lemma_dot_parts_extend(t.push('.'), decimal(v as nat));
        assert(t.push('.').drop_last() =~= t);
        assert(dot_parts(t.push('.')) == dot_parts(t).push(Seq::<char>::empty()));
        assert(Seq::<char>::empty() + decimal(v as nat) =~= decimal(v as nat));
        assert(dot_parts(oid_text(c)) =~= Seq::new(c.len(), |i: int| decimal(c[i] as nat)));
    }
}

/// Reading the decimal texts of numbers gives back the numbers.
proof fn lemma_parse_decimals(c: Seq<u32>)
    ensures
        parse_parts(Seq::new(c.len(), |i: int| decimal(c[i] as nat))) == Some(c),
    decreases c.len(),
{
    let ps = Seq::new(c.len(), |i: int| decimal(c[i] as nat));
    if c.len() == 0 {
        assert(c =~= Seq::<u32>::empty());
    } else {
        let v = c.last();
        lemma_parse_decimals(c.drop_last());
        assert(ps.drop_last() =~= Seq::new(c.drop_last().len(), |i: int| decimal(c.drop_last()[i] as nat)));
        lemma_decimal_digits(v as nat);
        let d = decimal(v as nat);
        assert(ps.last() == d);
        assert(is_digit(d[0]));
        assert(parse_u32_text(d) == Some(v));
        assert(c.drop_last().push(v) =~= c);
    }
}

/// Reading the dotted text of an OID gives back its components.
pub proof fn law_oid_text_round_trip(c: Seq<u32>)
    ensures
        oid_components(oid_text(c)) == Some(c),
{
    if c.len() == 0 {
        assert(oid_text(c) == Seq::<char>::empty());
        assert(dot_parts(Seq::<char>::empty()) == seq![Seq::<char>::empty()]);
        assert(seq![Seq::<char>::empty()].drop_last() =~= Seq::<Seq<char>>::empty());
        assert(parse_parts(Seq::<Seq<char>>::empty()) == Some(Seq::<u32>::empty()));
        assert(parse_parts(seq![Seq::<char>::empty()]) == Some(Seq::<u32>::empty()));
        assert(c =~= Seq::<u32>::empty());
    } else {
        lemma_dot_parts_oid_text(c);
        lemma_parse_decimals(c);
    }
}

/// Extending a digit string never lowers its value below the prefix's.
proof fn lemma_digits_value_grows(d: Seq<char>, q: Seq<char>)
    requires
        all_digits(d),
        all_digits(q),
    ensures
        digits_value(d + q) >= digits_value(d),
    decreases q.len(),
{
    if q.len() > 0 {
        let dq = d + q;
        assert(dq.drop_last() =~= d + q.drop_last());
        assert(all_digits(q.drop_last()));
        lemma_digits_value_grows(d, q.drop_last());
        assert(all_digits(d + q.drop_last()));
        lemma_digits_value_nonneg(d + q.drop_last());
        assert(dq.last() == q.last());
        assert(is_digit(q[q.len() - 1]));
        assert(digits_value(dq) == digits_value(d + q.drop_last()) * 10 + digit_value(q.last()));
    }
}

/// Scans one more character of a piece.
fn scan_step(st: PieceScan, c: char, Ghost(p): Ghost<Seq<char>>) -> (r: PieceScan)
    requires
        scan_matches(p, st),
        c != '.',
    ensures
        scan_matches(p.push(c), r),
        r is Empty ==> false,
{
    match st {
        PieceScan::Empty => {
            if c == '+' {
                assert(p.push(c) =~= seq!['+']);
                PieceScan::Plus
            } else if '0' <= c && c <= '9' {
                let v: u64 = (c as u64) - ('0' as u64);
                proof {
                    let d = p.push(c);
                    assert(d =~= seq![c]);
                    assert(d.drop_last() =~= Seq::<char>::empty());
                    assert(all_digits(d));
                    assert(d[0] != '+');
                    assert(d.last() == c);
                    assert(digits_value(Seq::<char>::empty()) == 0);
                    assert(digits_value(d) == digit_value(c));
                    assert(v == digit_value(c));
                }
                PieceScan::Digits(v)
            } else {
                proof {
                    let pc = p.push(c);
                    assert(pc =~= seq![c]);
                    assert(!is_digit(pc[0]));
                    assert(pc[0] != '+');
                    assert(!all_digits(pc));
                    assert forall|q: Seq<char>| #![trigger (pc + q)] q.len() > 0 implies parse_u32_text(pc + q) is None by {
                        assert((pc + q)[0] == c);
                    }
                }
                PieceScan::Invalid
            }
        },
        PieceScan::Plus => {
            if '0' <= c && c <= '9' {
                let v: u64 = (c as u64) - ('0' as u64);
                proof {
                    let pc = p.push(c);
                    assert(pc =~= seq!['+', c]);
                    let d = pc.drop_first();
                    assert(d =~= seq![c]);
                    assert(d.drop_last() =~= Seq::<char>::empty());
                    assert(all_digits(d));
                    assert(pc[0] == '+');
                    assert(d.last() == c);
                    assert(digits_value(Seq::<char>::empty()) == 0);
                    assert(digits_value(d) == digit_value(c));
                }
                PieceScan::Digits(v)
            } else {
                proof {
                    let pc = p.push(c);
                    assert(pc =~= seq!['+', c]);
                    assert(parse_u32_text(pc) is None) by {
                        let d = pc.drop_first();
                        assert(d[0] == c);
                    }
                    assert forall|q: Seq<char>| #![trigger (pc + q)] q.len() > 0 implies parse_u32_text(pc + q) is None by {
                        let e = pc + q;
                        let d = e.drop_first();
                        assert(d[0] == c);
                    }
                }
                PieceScan::Invalid
            }
        },
        PieceScan::Digits(v) => {
            let ghost d = if p[0] == '+' { p.drop_first() } else { p };
            let ghost pc = p.push(c);
            let ghost dc = if pc[0] == '+' { pc.drop_first() } else { pc };
            proof {
                assert(pc[0] == p[0]);
                if p[0] == '+' {
                    assert(dc =~= d.push(c));
                } else {
                    assert(dc =~= d.push(c));
                }
                assert(dc.drop_last() =~= d);
                lemma_digits_value_nonneg(d);
            }
            if '0' <= c && c <= '9' {
                let nv: u64 = v * 10 + ((c as u64) - ('0' as u64));
                if nv <= 0xFFFF_FFFFu64 {
                    proof {
                        assert(all_digits(dc));
                    }
                    PieceScan::Digits(nv)
                } else {
                    proof {
                        assert(all_digits(dc));
                        assert(digits_value(dc) > u32::MAX);
                        assert forall|q: Seq<char>| #![trigger (pc + q)] q.len() > 0 implies parse_u32_text(pc + q) is None by {
                            let e = pc + q;
                            let de = if e[0] == '+' { e.drop_first() } else { e };
                            assert(e[0] == pc[0]);
                            assert(de =~= dc + q);
                            if all_digits(de) {
                                assert forall|i: int| 0 <= i < q.len() implies is_digit(#[trigger] q[i]) by {
                                    assert(de[dc.len() + i] == q[i]);
                                }
                                lemma_digits_value_grows(dc, q);
                            }
                        }
                    }
                    PieceScan::Invalid
                }
            } else {
                proof {
                    assert(!is_digit(dc[dc.len() - 1]));
                    assert forall|q: Seq<char>| #![trigger (pc + q)] q.len() > 0 implies parse_u32_text(pc + q) is None by {
                        let e = pc + q;
                        let de = if e[0] == '+' { e.drop_first() } else { e };
                        assert(e[0] == pc[0]);
                        assert(de =~= dc + q);
                        assert(de[dc.len() - 1] == c);
                    }
                }
                PieceScan::Invalid
            }
        },
        PieceScan::Invalid => {
            proof {
                let pc = p.push(c);
                assert(pc =~= p + seq![c]);
                assert forall|q: Seq<char>| #![trigger (pc + q)] q.len() > 0 implies parse_u32_text(pc + q) is None by {
                    assert(pc + q =~= p + (seq![c] + q));
                    assert(parse_u32_text(p + (seq![c] + q)) is None);
                }
            }
            PieceScan::Invalid
        },
    }
}

/// The component value of a finished piece, if it is a valid `u32`.
fn scan_finish(st: &PieceScan, Ghost(p): Ghost<Seq<char>>) -> (r: Option<u32>)
    requires
        scan_matches(p, *st),
        p.len() > 0,
    ensures
        r == parse_u32_text(p),
{
    match st {
        PieceScan::Digits(v) => Some(*v as u32),
        PieceScan::Plus => {
            proof {
                assert(p.drop_first() =~= Seq::<char>::empty());
            }
            None
        },
        _ => None,
    }
}

impl Oid {
    /// Builds an OID from its components.
    pub fn new(components: Vec<u32>) -> (r: Self)
        ensures
            r@ == components@,
    {
        Oid { components }
    }

    /// Parses dotted text such as `1.3.6.1`: empty pieces are skipped, and any
    /// other piece must be a `u32` as `str::parse` reads it.
    pub fn from_string(s: &str) -> (r: GatewayResult<Self>)
        ensures
            r is Ok <==> oid_components(s@) is Some,
            r matches Ok(o) ==> o@ == oid_components(s@).unwrap(),
            r matches Err(e) ==> e.kind() == 0 && e.message() == "Invalid OID: "@ + s@,
    {
        let cs = chars_of(s);
        let n = cs.len();
        let mut comps: Vec<u32> = Vec::new();
        let mut st = PieceScan::Empty;
        let ghost mut cur: Seq<char> = Seq::empty();
        let mut failed = false;
        let mut i: usize = 0;
        proof {
            assert(s@.subrange(0, 0) =~= Seq::<char>::empty());
            assert(dot_parts(Seq::<char>::empty()).drop_last() =~= Seq::<Seq<char>>::empty());
        }
        while i < n
            invariant
                cs@ == s@,
                n == cs@.len(),
                i <= n,
                dot_parts(s@.subrange(0, i as int)).len() >= 1,
                !failed ==> parse_parts(dot_parts(s@.subrange(0, i as int)).drop_last()) == Some(comps@),
                failed ==> parse_parts(dot_parts(s@.subrange(0, i as int)).drop_last()) is None,
                dot_parts(s@.subrange(0, i as int)).last() == cur,
                scan_matches(cur, st),
            decreases n - i,
        {
            let c = cs[i];
            let ghost t = s@.subrange(0, i as int);
            let ghost t2 = s@.subrange(0, i as int + 1);
            proof {
                assert(t2.drop_last() =~= t);
                assert(t2.last() == c);
            }
            if c == '.' {
                proof {
                    let p = dot_parts(t);
                    assert(dot_parts(t2) == p.push(Seq::<char>::empty()));
                    assert(dot_parts(t2).drop_last() =~= p);
                    assert(p.drop_last().push(p.last()) =~= p);
                }
                match st {
                    PieceScan::Empty => {},
                    _ => {
                        let fin = scan_finish(&st, Ghost(cur));
                        match fin {
                            Some(v) => {
                                if !failed {
                                    comps.push(v);
                                }
                            },
                            None => {
                                failed = true;
                            },
                        }
                    },
                }
                st = PieceScan::Empty;
                proof {
                    cur = Seq::empty();
                    lemma_dot_parts_nonempty(t2);
                }
            } else {
                let nst = scan_step(st, c, Ghost(cur));
                st = nst;
                proof {
                    let p = dot_parts(t);
                    assert(dot_parts(t2) == p.update(p.len() - 1, p.last().push(c)));
                    assert(dot_parts(t2).drop_last() =~= p.drop_last());
                    cur = cur.push(c);
                }
            }
            i = i + 1;
        }
        proof {
            assert(s@.subrange(0, n as int) =~= s@);
            let p = dot_parts(s@);
            assert(p.drop_last().push(p.last()) =~= p);
        }
        let last = match st {
            PieceScan::Empty => None,
            _ => Some(scan_finish(&st, Ghost(cur))),
        };
        if failed {
            return Err(GatewayError::Parse(join2("Invalid OID: ", s)));
        }
        match last {
            None => Ok(Oid { components: comps }),
            Some(Some(v)) => {
                comps.push(v);
                Ok(Oid { components: comps })
            },
            Some(None) => Err(GatewayError::Parse(join2("Invalid OID: ", s))),
        }
    }
}


/// Three-way comparison of OIDs: `-1`, `0` or `1`, component by component,
/// a proper prefix coming first.
pub open spec fn oid_order(a: Seq<u32>, b: Seq<u32>) -> int
    decreases a.len(),
{
    if a.len() == 0 {
        if b.len() == 0 { 0 } else { -1 }
    } else if b.len() == 0 {
        1
    } else if a[0] < b[0] {
        -1
    } else if a[0] > b[0] {
        1
    } else {
        oid_order(a.drop_first(), b.drop_first())
    }
}

/// `oid_order` is reflexive.
pub proof fn lemma_oid_order_refl(a: Seq<u32>)
    ensures
        oid_order(a, a) == 0,
    decreases a.len(),
{
    if a.len() > 0 {
        lemma_oid_order_refl(a.drop_first());
    }
}

/// Two OIDs compare as equal exactly when they are the same.
pub proof fn lemma_oid_order_eq(a: Seq<u32>, b: Seq<u32>)
    ensures
        oid_order(a, b) == 0 <==> a == b,
    decreases a.len(),
{
    if a.len() > 0 && b.len() > 0 {
        lemma_oid_order_eq(a.drop_first(), b.drop_first());
        if a[0] == b[0] && a.drop_first() == b.drop_first() {
            assert(a =~= seq![a[0]] + a.drop_first());
            assert(b =~= seq![b[0]] + b.drop_first());
        }
        if a == b {
            assert(a.drop_first() == b.drop_first());
        }
    } else if a.len() == 0 && b.len() == 0 {
        assert(a =~= b);
    }
}

/// `oid_order` is antisymmetric.
pub proof fn lemma_oid_order_antisym(a: Seq<u32>, b: Seq<u32>)
    ensures
        oid_order(a, b) == -oid_order(b, a),
        -1 <= oid_order(a, b) <= 1,
    decreases a.len(),
{
    if a.len() > 0 && b.len() > 0 {
        lemma_oid_order_antisym(a.drop_first(), b.drop_first());
    }
}

/// `oid_order` orders OIDs transitively.
pub proof fn lemma_oid_order_trans(a: Seq<u32>, b: Seq<u32>, c: Seq<u32>)
    requires
        oid_order(a, b) < 0,
        oid_order(b, c) < 0,
    ensures
        oid_order(a, c) < 0,
    decreases a.len(),
{
    if a.len() > 0 && b.len() > 0 && c.len() > 0 {
        if a[0] == b[0] && b[0] == c[0] {
            lemma_oid_order_trans(a.drop_first(), b.drop_first(), c.drop_first());
        }
    }
}

impl Oid {
    /// The dotted decimal text of the OID.
    pub fn to_string(&self) -> (r: String)
        ensures
            r@ == oid_text(self@),
    {
        let mut r = String::new();
        let n = self.components.len();
        let mut i: usize = 0;
        while i < n
            invariant
                n == self@.len(),
                i <= n,
                r@ == oid_text(self@.subrange(0, i as int)),
            decreases n - i,
        {
            let piece = u64_text(self.components[i] as u64);
            proof {
                let t = self@.subrange(0, i as int + 1);
                assert(t.drop_last() =~= self@.subrange(0, i as int));
                if i == 0 {
                    assert(self@.subrange(0, 0) =~= Seq::<u32>::empty());
                }
            }
            if i > 0 {
                push_char(&mut r, '.');
            }
            r.append(piece.as_str());
            proof {
                if i == 0 {
                    assert(r@ =~= decimal(self@[0] as nat));
                } else {
                    let t = self@.subrange(0, i as int + 1);
                    assert(t.last() == self@[i as int]);
                    assert(r@ =~= oid_text(t.drop_last()).push('.') + decimal(t.last() as nat));
                }
            }
            i = i + 1;
        }
        proof {
            assert(self@.subrange(0, n as int) =~= self@);
        }
        r
    }

    /// The OID with one more component at its end.
    pub fn append(&self, component: u32) -> (r: Self)
        ensures
            r@ == self@.push(component),
    {
        let mut c = self.components.clone();
        proof {
            assert(c@ =~= self@);
        }
        c.push(component);
        Oid { components: c }
    }

    /// Whether the OID lies strictly below `parent` in the tree: it is longer,
    /// and `parent` is its prefix.
    pub fn is_child_of(&self, parent: &Oid) -> (r: bool)
        ensures
            r == (self@.len() > parent@.len() && self@.subrange(0, parent@.len() as int) == parent@),
    {
        let n = parent.components.len();
        if self.components.len() <= n {
            return false;
        }
        let mut i: usize = 0;
        while i < n
            invariant
                n == parent@.len(),
                n < self@.len(),
                i <= n,
                forall|j: int| 0 <= j < i ==> self@[j] == parent@[j],
            decreases n - i,
        {
            if self.components[i] != parent.components[i] {
                proof {
                    assert(self@.subrange(0, n as int)[i as int] != parent@[i as int]);
                }
                return false;
            }
            i = i + 1;
        }
        proof {
            assert(self@.subrange(0, n as int) =~= parent@);
        }
        true
    }

    /// A copy of the OID.
    pub fn duplicate(&self) -> (r: Self)
        ensures
            r@ == self@,
    {
        let c = self.components.clone();
        proof {
            assert(c@ =~= self@);
        }
        Oid { components: c }
    }

    /// Whether two OIDs have the same components.
    pub fn same_as(&self, other: &Oid) -> (r: bool)
        ensures
            r == (self@ == other@),
    {
        if self.components.len() != other.components.len() {
            return false;
        }
        let n = self.components.len();
        let mut i: usize = 0;
        while i < n
            invariant
                n == self@.len(),
                n == other@.len(),
                i <= n,
                forall|j: int| 0 <= j < i ==> self@[j] == other@[j],
            decreases n - i,
        {
            if self.components[i] != other.components[i] {
                return false;
            }
            i = i + 1;
        }
        proof {
            assert(self@ =~= other@);
        }
        true
    }
}

/// Compares two OIDs component by component; a proper prefix comes first.
/// The result is `-1`, `0` or `1`.
pub fn oid_compare(a: &Oid, b: &Oid) -> (r: i8)
    ensures
        r as int == oid_order(a@, b@),
{
    let n = if a.components.len() < b.components.len() { a.components.len() } else { b.components.len() };
    let mut i: usize = 0;
    proof {
        assert(a@.subrange(0, a@.len() as int) =~= a@);
        assert(b@.subrange(0, b@.len() as int) =~= b@);
    }
    while i < n
        invariant
            n <= a@.len(),
            n <= b@.len(),
            n == a@.len() || n == b@.len(),
            i <= n,
            oid_order(a@, b@) == oid_order(a@.subrange(i as int, a@.len() as int), b@.subrange(i as int, b@.len() as int)),
        decreases n - i,
    {
        let x = a.components[i];
        let y = b.components[i];
        proof {
            let sa = a@.subrange(i as int, a@.len() as int);
            let sb = b@.subrange(i as int, b@.len() as int);
            assert(sa.drop_first() =~= a@.subrange(i as int + 1, a@.len() as int));
            assert(sb.drop_first() =~= b@.subrange(i as int + 1, b@.len() as int));
            assert(sa[0] == x);
            assert(sb[0] == y);
        }
        if x < y {
            return -1;
        }
        if x > y {
            return 1;
        }
        i = i + 1;
    }
    proof {
        let sa = a@.subrange(n as int, a@.len() as int);
        let sb = b@.subrange(n as int, b@.len() as int);
        assert(sa.len() == 0 || sb.len() == 0);
    }
    if a.components.len() < b.components.len() {
        -1
    } else if a.components.len() > b.components.len() {
        1
    } else {
        0
    }
}


/// SNMP version
pub enum SnmpVersion {
    V1,
    V2c,
    V3,
}

/// SNMP PDU types
pub enum PduType {
    GetRequest,
    GetNextRequest,
    GetBulkRequest,
    SetRequest,
    GetResponse,
    Trap,
    InformRequest,
    Report,
}

/// SNMP error status
pub enum ErrorStatus {
    NoError,
    TooBig,
    NoSuchName,
    BadValue,
    ReadOnly,
    GenErr,
    NoAccess,
    WrongType,
    WrongLength,
    WrongEncoding,
    WrongValue,
    NoCreation,
    InconsistentValue,
    ResourceUnavailable,
    CommitFailed,
    UndoFailed,
    AuthorizationError,
    NotWritable,
    InconsistentName,
}

impl ErrorStatus {
    /// The numeric code of the status on the wire.
    pub fn code(&self) -> (r: u8)
        ensures
            r == match self {
                ErrorStatus::NoError => 0u8,
                ErrorStatus::TooBig => 1,
                ErrorStatus::NoSuchName => 2,
                ErrorStatus::BadValue => 3,
                ErrorStatus::ReadOnly => 4,
                ErrorStatus::GenErr => 5,
                ErrorStatus::NoAccess => 6,
                ErrorStatus::WrongType => 7,
                ErrorStatus::WrongLength => 8,
                ErrorStatus::WrongEncoding => 9,
                ErrorStatus::WrongValue => 10,
                ErrorStatus::NoCreation => 11,
                ErrorStatus::InconsistentValue => 12,
                ErrorStatus::ResourceUnavailable => 13,
                ErrorStatus::CommitFailed => 14,
                ErrorStatus::UndoFailed => 15,
                ErrorStatus::AuthorizationError => 16,
                ErrorStatus::NotWritable => 17,
                ErrorStatus::InconsistentName => 18,
            },
    {
        match self {
            ErrorStatus::NoError => 0,
            ErrorStatus::TooBig => 1,
            ErrorStatus::NoSuchName => 2,
            ErrorStatus::BadValue => 3,
            ErrorStatus::ReadOnly => 4,
            ErrorStatus::GenErr => 5,
            ErrorStatus::NoAccess => 6,
            ErrorStatus::WrongType => 7,
            ErrorStatus::WrongLength => 8,
            ErrorStatus::WrongEncoding => 9,
            ErrorStatus::WrongValue => 10,
            ErrorStatus::NoCreation => 11,
            ErrorStatus::InconsistentValue => 12,
            ErrorStatus::ResourceUnavailable => 13,
            ErrorStatus::CommitFailed => 14,
            ErrorStatus::UndoFailed => 15,
            ErrorStatus::AuthorizationError => 16,
            ErrorStatus::NotWritable => 17,
            ErrorStatus::InconsistentName => 18,
        }
    }
}

/// SNMP data types
pub enum SnmpValue {
    Integer(i32),
    OctetString(Vec<u8>),
    Null,
    ObjectId(Vec<u32>),
    IpAddress([u8; 4]),
    Counter32(u32),
    Gauge32(u32),
    TimeTicks(u32),
    Opaque(Vec<u8>),
    Counter64(u64),
}

/// The mathematical value of an `SnmpValue`.
pub enum SnmpValueView {
    Integer(i32),
    OctetString(Seq<u8>),
    Null,
    ObjectId(Seq<u32>),
    IpAddress(Seq<u8>),
    Counter32(u32),
    Gauge32(u32),
    TimeTicks(u32),
    Opaque(Seq<u8>),
    Counter64(u64),
}

impl View for SnmpValue {
    type V = SnmpValueView;

    open spec fn view(&self) -> SnmpValueView {
        match self {
            SnmpValue::Integer(v) => SnmpValueView::Integer(*v),
            SnmpValue::OctetString(v) => SnmpValueView::OctetString(v@),
            SnmpValue::Null => SnmpValueView::Null,
            SnmpValue::ObjectId(v) => SnmpValueView::ObjectId(v@),
            SnmpValue::IpAddress(v) => SnmpValueView::IpAddress(v@),
            SnmpValue::Counter32(v) => SnmpValueView::Counter32(*v),
            SnmpValue::Gauge32(v) => SnmpValueView::Gauge32(*v),
            SnmpValue::TimeTicks(v) => SnmpValueView::TimeTicks(*v),
            SnmpValue::Opaque(v) => SnmpValueView::Opaque(v@),
            SnmpValue::Counter64(v) => SnmpValueView::Counter64(*v),
        }
    }
}

/// MIB variable binding
pub struct VarBind {
    pub oid: Oid,
    pub value: SnmpValue,
}

/// SNMP request/response
pub struct SnmpMessage {
    pub version: SnmpVersion,
    pub community: String,
    pub pdu_type: PduType,
    pub request_id: u32,
    pub error_status: ErrorStatus,
    pub error_index: u32,
    pub var_binds: Vec<VarBind>,
}

/// SNMP trap information; the agent address is held as its octets.
pub struct SnmpTrap {
    pub enterprise_oid: Oid,
    pub agent_addr: Vec<u8>,
    pub generic_trap: u32,
    pub specific_trap: u32,
    pub timestamp: u32,
    pub var_binds: Vec<VarBind>,
}

/// Access rights of a MIB object.
pub enum MibAccess {
    ReadOnly,
    ReadWrite,
    WriteOnly,
    NotAccessible,
}

/// MIB tree node
pub struct MibNode {
    pub oid: Oid,
    pub name: String,
    pub description: String,
    pub access: MibAccess,
    pub data_type: String,
    pub value_getter: Option<String>,
    pub value_setter: Option<String>,
}

/// SNMP agent settings.
pub struct SnmpConfig {
    pub enabled: bool,
    pub community: String,
    pub port: u16,
    pub bind_address: String,
    pub version: String,
}

/// The gateway's software version, reported by the `gatewayVersion` object.
pub const VERSION: &'static str = "0.1.0";

/// The value that a getter yields, given the time in whole seconds since the
/// Unix epoch.
pub open spec fn getter_value(getter: Option<Seq<char>>, unix_secs: u64) -> SnmpValueView {
    match getter {
        None => SnmpValueView::Null,
        Some(g) => {
            if g == "get_sys_descr"@ {
                SnmpValueView::OctetString("Redfire TDMoE Gateway v1.0".spec_bytes())
            } else if g == "get_sys_object_id"@ {
                SnmpValueView::ObjectId(seq![1u32, 3, 6, 1, 4, 1, 99999, 1])
            } else if g == "get_sys_uptime"@ {
                SnmpValueView::TimeTicks((unix_secs * 100) as u32)
            } else if g == "get_sys_contact"@ {
                SnmpValueView::OctetString("admin@redfire-gateway.local".spec_bytes())
            } else if g == "get_sys_name"@ {
                SnmpValueView::OctetString("redfire-gateway-1".spec_bytes())
            } else if g == "get_sys_location"@ {
                SnmpValueView::OctetString("Network Operations Center".spec_bytes())
            } else if g == "get_gateway_version"@ {
                SnmpValueView::OctetString(VERSION.spec_bytes())
            } else if g == "get_active_calls"@ {
                SnmpValueView::Gauge32(5)
            } else {
                SnmpValueView::Null
            }
        },
    }
}

/// The getter name of a node, as text.
pub open spec fn getter_of(node: MibNode) -> Option<Seq<char>> {
    match node.value_getter {
        None => None,
        Some(g) => Some(g@),
    }
}

fn text_is(s: &String, lit: &str) -> (r: bool)
    ensures
        r == (s@ == lit@),
{
    let t = String::from_str(lit);
    *s == t
}

/// The current value of a MIB object.
pub fn get_mib_value(node: &MibNode, unix_secs: u64) -> (r: SnmpValue)
    requires
        unix_secs <= u64::MAX / 100,
    ensures
        r@ == getter_value(getter_of(*node), unix_secs),
{
    match &node.value_getter {
        None => SnmpValue::Null,
        Some(g) => {
            if text_is(g, "get_sys_descr") {
                SnmpValue::OctetString("Redfire TDMoE Gateway v1.0".as_bytes_vec())
            } else if text_is(g, "get_sys_object_id") {
                let v: Vec<u32> = vec![1, 3, 6, 1, 4, 1, 99999, 1];
                proof {
                    assert(v@ =~= seq![1u32, 3, 6, 1, 4, 1, 99999, 1]);
                }
                SnmpValue::ObjectId(v)
            } else if text_is(g, "get_sys_uptime") {
                let ticks = (unix_secs * 100) as u32;
                SnmpValue::TimeTicks(ticks)
            } else if text_is(g, "get_sys_contact") {
                SnmpValue::OctetString("admin@redfire-gateway.local".as_bytes_vec())
            } else if text_is(g, "get_sys_name") {
                SnmpValue::OctetString("redfire-gateway-1".as_bytes_vec())
            } else if text_is(g, "get_sys_location") {
                SnmpValue::OctetString("Network Operations Center".as_bytes_vec())
            } else if text_is(g, "get_gateway_version") {
                SnmpValue::OctetString(VERSION.as_bytes_vec())
            } else if text_is(g, "get_active_calls") {
                SnmpValue::Gauge32(5)
            } else {
                SnmpValue::Null
            }
        },
    }
}


/// The MIB objects known to the agent, keyed by OID.
pub struct MibTable {
    pub nodes: Vec<MibNode>,
}

impl MibTable {
    /// No two objects of the table share an OID.
    pub open spec fn wf(&self) -> bool {
        forall|i: int, j: int|
            0 <= i < j < self.nodes@.len() ==> #[trigger] self.nodes@[i].oid@ != #[trigger] self.nodes@[j].oid@
    }

    /// Whether some object of the table has the OID `k`.
    pub open spec fn has_key(&self, k: Seq<u32>) -> bool {
        exists|i: int| 0 <= i < self.nodes@.len() && #[trigger] self.nodes@[i].oid@ == k
    }

    /// The number of objects.
    pub fn len(&self) -> (r: usize)
        ensures
            r == self.nodes@.len(),
    {
        self.nodes.len()
    }

    /// The position of the object with OID `k`, if any.
    pub fn find(&self, k: &Oid) -> (r: Option<usize>)
        ensures
            r matches Some(i) ==> i < self.nodes@.len() && self.nodes@[i as int].oid@ == k@,
            r is None ==> !self.has_key(k@),
    {
        let mut i: usize = 0;
        while i < self.nodes.len()
            invariant
                i <= self.nodes@.len(),
                forall|j: int| 0 <= j < i ==> self.nodes@[j].oid@ != k@,
            decreases self.nodes@.len() - i,
        {
            if self.nodes[i].oid.same_as(k) {
                return Some(i);
            }
            i = i + 1;
        }
        None
    }

    /// Whether the table holds an object with OID `k`.
    pub fn contains_key(&self, k: &Oid) -> (r: bool)
        ensures
            r == self.has_key(k@),
    {
        self.find(k).is_some()
    }

    /// Adds an object, replacing the one with the same OID if there is one.
    pub fn insert(&mut self, node: MibNode)
        requires
            old(self).wf(),
        ensures
            final(self).wf(),
            final(self).has_key(node.oid@),
            forall|k: Seq<u32>| k != node.oid@ ==> (final(self).has_key(k) <==> old(self).has_key(k)),
    {
        let ghost key = node.oid@;
        match self.find(&node.oid) {
            Some(i) => {
                self.nodes.set(i, node);
                proof {
                    assert(self.nodes@[i as int].oid@ == key);
                    assert forall|k: Seq<u32>| k != key implies (self.has_key(k) <==> old(self).has_key(k)) by {
                        if self.has_key(k) {
                            let j = choose|j: int| 0 <= j < self.nodes@.len() && #[trigger] self.nodes@[j].oid@ == k;
                            assert(old(self).nodes@[j].oid@ == k);
                        }
                        if old(self).has_key(k) {
                            let j = choose|j: int| 0 <= j < old(self).nodes@.len() && #[trigger] old(self).nodes@[j].oid@ == k;
                            assert(self.nodes@[j].oid@ == k);
                        }
                    }
                }
            },
            None => {
                self.nodes.push(node);
                proof {
                    let n = self.nodes@.len() - 1;
                    assert(self.nodes@[n].oid@ == key);
                    assert forall|k: Seq<u32>| k != key implies (self.has_key(k) <==> old(self).has_key(k)) by {
                        if self.has_key(k) {
                            let j = choose|j: int| 0 <= j < self.nodes@.len() && #[trigger] self.nodes@[j].oid@ == k;
                            assert(old(self).nodes@[j].oid@ == k);
                        }
                        if old(self).has_key(k) {
                            let j = choose|j: int| 0 <= j < old(self).nodes@.len() && #[trigger] old(self).nodes@[j].oid@ == k;
                            assert(self.nodes@[j].oid@ == k);
                        }
                    }
                }
            },
        }
    }

    /// The smallest OID of the table that comes after `current`, if any.
    pub fn next_oid(&self, current: &Oid) -> (r: Option<Oid>)
        ensures
            r matches Some(o) ==> self.has_key(o@) && oid_order(o@, current@) > 0 && forall|j: int|
                0 <= j < self.nodes@.len() && oid_order(#[trigger] self.nodes@[j].oid@, current@) > 0
                    ==> oid_order(o@, self.nodes@[j].oid@) <= 0,
            r is None ==> forall|j: int| 0 <= j < self.nodes@.len() ==> oid_order(#[trigger] self.nodes@[j].oid@, current@) <= 0,
    {
        let mut best: Option<usize> = None;
        let mut i: usize = 0;
        while i < self.nodes.len()
            invariant
                i <= self.nodes@.len(),
                best matches Some(b) ==> b < i && oid_order(self.nodes@[b as int].oid@, current@) > 0 && forall|j: int|
                    0 <= j < i && oid_order(#[trigger] self.nodes@[j].oid@, current@) > 0
                        ==> oid_order(self.nodes@[b as int].oid@, self.nodes@[j].oid@) <= 0,
                best is None ==> forall|j: int| 0 <= j < i ==> oid_order(#[trigger] self.nodes@[j].oid@, current@) <= 0,
            decreases self.nodes@.len() - i,
        {
            let c = oid_compare(&self.nodes[i].oid, current);
            if c > 0 {
                match best {
                    None => {
                        best = Some(i);
                        proof {
                            lemma_oid_order_refl(self.nodes@[i as int].oid@);
                        }
                    },
                    Some(b) => {
                        let d = oid_compare(&self.nodes[i].oid, &self.nodes[b].oid);
                        if d < 0 {
                            proof {
                                let ni = self.nodes@[i as int].oid@;
                                let nb = self.nodes@[b as int].oid@;
                                lemma_oid_order_refl(ni);
                                assert forall|j: int|
                                    0 <= j < i + 1 && oid_order(#[trigger] self.nodes@[j].oid@, current@) > 0
                                        implies oid_order(ni, self.nodes@[j].oid@) <= 0 by {
                                    let nj = self.nodes@[j].oid@;
                                    if j < i {
                                        lemma_oid_order_antisym(nb, nj);
                                        lemma_oid_order_antisym(ni, nj);
                                        if oid_order(nb, nj) < 0 {
                                            lemma_oid_order_trans(ni, nb, nj);
                                        } else {
                                            lemma_oid_order_eq(nb, nj);
                                        }
                                    }
                                }
                            }
                            best = Some(i);
                        } else {
                            proof {
                                let ni = self.nodes@[i as int].oid@;
                                let nb = self.nodes@[b as int].oid@;
                                lemma_oid_order_antisym(ni, nb);
                            }
                        }
                    },
                }
            }
            i = i + 1;
        }
        match best {
            None => None,
            Some(b) => {
                proof {
                    assert(self.nodes@[b as int].oid@ == self.nodes@[b as int].oid@);
                }
                Some(self.nodes[b].oid.duplicate())
            },
        }
    }
}

/// The setter name of a node, as text.
pub open spec fn setter_of(node: MibNode) -> Option<Seq<char>> {
    match node.value_setter {
        None => None,
        Some(g) => Some(g@),
    }
}

/// Whether `n` is the object with these OID, name, description, access, data
/// type, getter and setter.
pub open spec fn node_is(
    n: MibNode,
    oid: Seq<u32>,
    name: Seq<char>,
    description: Seq<char>,
    access: MibAccess,
    data_type: Seq<char>,
    getter: Seq<char>,
    setter: Option<Seq<char>>,
) -> bool {
    &&& n.oid@ == oid
    &&& n.name@ == name
    &&& n.description@ == description
    &&& n.access == access
    &&& n.data_type@ == data_type
    &&& getter_of(n) == Some(getter)
    &&& setter_of(n) == setter
}

/// Whether `t` is the table of standard objects, in this order: sysDescr,
/// sysObjectID and sysUpTime (read-only), sysContact, sysName and sysLocation
/// (read-write, each with its setter) under the system group, then
/// gatewayVersion and activeCalls (read-only) under the enterprise group.
pub open spec fn standard_table(t: MibTable) -> bool {
    let n = t.nodes@;
    &&& n.len() == 8
    &&& node_is(n[0], system_oid().push(1), "sysDescr"@, "System Description"@, MibAccess::ReadOnly, "OCTET STRING"@,
        "get_sys_descr"@, None)
    &&& node_is(n[1], system_oid().push(2), "sysObjectID"@, "System Object ID"@, MibAccess::ReadOnly, "OBJECT IDENTIFIER"@,
        "get_sys_object_id"@, None)
    &&& node_is(n[2], system_oid().push(3), "sysUpTime"@, "System Up Time"@, MibAccess::ReadOnly, "TimeTicks"@,
        "get_sys_uptime"@, None)
    &&& node_is(n[3], system_oid().push(4), "sysContact"@, "System Contact"@, MibAccess::ReadWrite, "OCTET STRING"@,
        "get_sys_contact"@, Some("set_sys_contact"@))
    &&& node_is(n[4], system_oid().push(5), "sysName"@, "System Name"@, MibAccess::ReadWrite, "OCTET STRING"@,
        "get_sys_name"@, Some("set_sys_name"@))
    &&& node_is(n[5], system_oid().push(6), "sysLocation"@, "System Location"@, MibAccess::ReadWrite, "OCTET STRING"@,
        "get_sys_location"@, Some("set_sys_location"@))
    &&& node_is(n[6], enterprise_oid().push(1), "gatewayVersion"@, "Gateway Software Version"@, MibAccess::ReadOnly,
        "OCTET STRING"@, "get_gateway_version"@, None)
    &&& node_is(n[7], enterprise_oid().push(2), "activeCalls"@, "Number of Active Calls"@, MibAccess::ReadOnly, "Gauge32"@,
        "get_active_calls"@, None)
}

fn node(oid: Oid, name: &str, description: &str, access: MibAccess, data_type: &str, getter: &str, setter: Option<&str>) -> (r: MibNode)
    ensures
        r.oid@ == oid@,
        r.name@ == name@,
        r.description@ == description@,
        r.access == access,
        r.data_type@ == data_type@,
        r.value_getter matches Some(g) && g@ == getter@,
        setter_of(r) == match setter {
            Some(t) => Some(t@),
            None => None::<Seq<char>>,
        },
{
    MibNode {
        oid,
        name: String::from_str(name),
        description: String::from_str(description),
        access,
        data_type: String::from_str(data_type),
        value_getter: Some(String::from_str(getter)),
        value_setter: match setter {
            Some(s) => Some(String::from_str(s)),
            None => None,
        },
    }
}

/// The OID of the system group, 1.3.6.1.2.1.1.
pub open spec fn system_oid() -> Seq<u32> {
    seq![1u32, 3, 6, 1, 2, 1, 1]
}

/// The OID of the gateway's enterprise group, 1.3.6.1.4.1.99999.
pub open spec fn enterprise_oid() -> Seq<u32> {
    seq![1u32, 3, 6, 1, 4, 1, 99999]
}

/// The objects the agent serves: sysDescr, sysObjectID, sysUpTime, sysContact,
/// sysName and sysLocation under the system group, and gatewayVersion and
/// activeCalls under the enterprise group.
pub fn standard_mib() -> (r: MibTable)
    ensures
        r.wf(),
        r.nodes@.len() == 8,
        forall|k: int| 1 <= k <= 6 ==> #[trigger] r.has_key(system_oid().push(k as u32)),
        r.has_key(enterprise_oid().push(1)),
        r.has_key(enterprise_oid().push(2)),
        forall|i: int| 0 <= i < 8 ==> (#[trigger] r.nodes@[i].oid@ == system_oid().push((i + 1) as u32) || (i >= 6
            && r.nodes@[i].oid@ == enterprise_oid().push((i - 5) as u32))),
        getter_of(r.nodes@[0]) == Some("get_sys_descr"@),
        getter_of(r.nodes@[1]) == Some("get_sys_object_id"@),
        getter_of(r.nodes@[2]) == Some("get_sys_uptime"@),
        getter_of(r.nodes@[3]) == Some("get_sys_contact"@),
        getter_of(r.nodes@[4]) == Some("get_sys_name"@),
        getter_of(r.nodes@[5]) == Some("get_sys_location"@),
        getter_of(r.nodes@[6]) == Some("get_gateway_version"@),
        getter_of(r.nodes@[7]) == Some("get_active_calls"@),
        standard_table(r),
{
    let sys = Oid::new(vec![1, 3, 6, 1, 2, 1, 1]);
    let ent = Oid::new(vec![1, 3, 6, 1, 4, 1, 99999]);
    proof {
        assert(sys@ =~= system_oid());
        assert(ent@ =~= enterprise_oid());
    }
    let mut nodes: Vec<MibNode> = Vec::new();
    nodes.push(node(sys.append(1), "sysDescr", "System Description", MibAccess::ReadOnly, "OCTET STRING", "get_sys_descr", None));
    nodes.push(node(sys.append(2), "sysObjectID", "System Object ID", MibAccess::ReadOnly, "OBJECT IDENTIFIER", "get_sys_object_id", None));
    nodes.push(node(sys.append(3), "sysUpTime", "System Up Time", MibAccess::ReadOnly, "TimeTicks", "get_sys_uptime", None));
    nodes.push(node(sys.append(4), "sysContact", "System Contact", MibAccess::ReadWrite, "OCTET STRING", "get_sys_contact", Some("set_sys_contact")));
    nodes.push(node(sys.append(5), "sysName", "System Name", MibAccess::ReadWrite, "OCTET STRING", "get_sys_name", Some("set_sys_name")));
    nodes.push(node(sys.append(6), "sysLocation", "System Location", MibAccess::ReadWrite, "OCTET STRING", "get_sys_location", Some("set_sys_location")));
    nodes.push(node(ent.append(1), "gatewayVersion", "Gateway Software Version", MibAccess::ReadOnly, "OCTET STRING", "get_gateway_version", None));
    nodes.push(node(ent.append(2), "activeCalls", "Number of Active Calls", MibAccess::ReadOnly, "Gauge32", "get_active_calls", None));
    let r = MibTable { nodes };
    proof {
        assert forall|i: int, j: int| 0 <= i < j < r.nodes@.len() implies #[trigger] r.nodes@[i].oid@ != #[trigger] r.nodes@[j].oid@ by {
            let a = r.nodes@[i].oid@;
            let b = r.nodes@[j].oid@;
            if i < 6 && j < 6 {
                assert(a[7] != b[7]);
            } else if i < 6 {
                assert(a[4] != b[4]);
            } else {
                assert(a[7] != b[7]);
            }
        }
        assert forall|k: int| 1 <= k <= 6 implies #[trigger] r.has_key(system_oid().push(k as u32)) by {
            assert(r.nodes@[k - 1].oid@ == system_oid().push(k as u32));
        }
        assert(r.nodes@[6].oid@ == enterprise_oid().push(1));
        assert(r.nodes@[7].oid@ == enterprise_oid().push(2));
    }
    r
}


/// The object of the table with OID `k`.
pub open spec fn node_with(mib: &MibTable, k: Seq<u32>) -> MibNode {
    mib.nodes@[choose|i: int| 0 <= i < mib.nodes@.len() && #[trigger] mib.nodes@[i].oid@ == k]
}

/// Whether `o` is the OID of the table that comes right after `cur`.
pub open spec fn is_next_of(mib: &MibTable, cur: Seq<u32>, o: Seq<u32>) -> bool {
    &&& mib.has_key(o)
    &&& oid_order(o, cur) > 0
    &&& forall|j: int| 0 <= j < mib.nodes@.len() && oid_order(#[trigger] mib.nodes@[j].oid@, cur) > 0
            ==> oid_order(o, mib.nodes@[j].oid@) <= 0
}

/// Whether some OID of the table comes after `cur`.
pub open spec fn has_next_of(mib: &MibTable, cur: Seq<u32>) -> bool {
    exists|j: int| 0 <= j < mib.nodes@.len() && oid_order(#[trigger] mib.nodes@[j].oid@, cur) > 0
}

/// The answer `r` to a GetRequest for `binds`: the bindings are answered in
/// order until the first OID that the table lacks, which is reported by its
/// position (counted from one).
pub open spec fn answers_get(binds: Seq<VarBind>, mib: &MibTable, secs: u64, r: &SnmpMessage) -> bool {
    let k = r.var_binds@.len();
    &&& k <= binds.len()
    &&& forall|j: int| 0 <= j < k ==> {
        &&& mib.has_key(binds[j].oid@)
        &&& (#[trigger] r.var_binds@[j]).oid@ == binds[j].oid@
        &&& r.var_binds@[j].value@ == getter_value(getter_of(node_with(mib, binds[j].oid@)), secs)
    }
    &&& k < binds.len() ==> !mib.has_key(binds[k as int].oid@) && r.error_status is NoSuchName && r.error_index == k + 1
    &&& k == binds.len() ==> r.error_status is NoError && r.error_index == 0
}

/// The answer `r` to a GetNextRequest for `binds`: each binding is answered by
/// the next OID of the table, until the first one after which the table has
/// none, which is reported by its position (counted from one).
pub open spec fn answers_get_next(binds: Seq<VarBind>, mib: &MibTable, secs: u64, r: &SnmpMessage) -> bool {
    let k = r.var_binds@.len();
    &&& k <= binds.len()
    &&& forall|j: int| 0 <= j < k ==> {
        &&& is_next_of(mib, binds[j].oid@, (#[trigger] r.var_binds@[j]).oid@)
        &&& r.var_binds@[j].value@ == getter_value(getter_of(node_with(mib, r.var_binds@[j].oid@)), secs)
    }
    &&& k < binds.len() ==> !has_next_of(mib, binds[k as int].oid@) && r.error_status is NoSuchName && r.error_index == k + 1
    &&& k == binds.len() ==> r.error_status is NoError && r.error_index == 0
}

proof fn lemma_node_with(mib: &MibTable, i: int)
    requires
        mib.wf(),
        0 <= i < mib.nodes@.len(),
    ensures
        node_with(mib, mib.nodes@[i].oid@) == mib.nodes@[i],
{
    let k = mib.nodes@[i].oid@;
    assert(mib.has_key(k));
    let c = choose|c: int| 0 <= c < mib.nodes@.len() && #[trigger] mib.nodes@[c].oid@ == k;
    if c != i {
        if c < i {
            assert(mib.nodes@[c].oid@ != mib.nodes@[i].oid@);
        } else {
            assert(mib.nodes@[i].oid@ != mib.nodes@[c].oid@);
        }
    }
}

/// Answers a Get or GetNext request from the table; other requests get a
/// general error. The time is in whole seconds since the Unix epoch.
pub fn process_request(request: SnmpMessage, mib: &MibTable, unix_secs: u64) -> (r: SnmpMessage)
    requires
        mib.wf(),
        request.var_binds@.len() < u32::MAX,
        unix_secs <= u64::MAX / 100,
    ensures
        r.version == request.version,
        r.community@ == request.community@,
        r.pdu_type is GetResponse,
        r.request_id == request.request_id,
        request.pdu_type is GetRequest ==> answers_get(request.var_binds@, mib, unix_secs, &r),
        request.pdu_type is GetNextRequest ==> answers_get_next(request.var_binds@, mib, unix_secs, &r),
        !(request.pdu_type is GetRequest || request.pdu_type is GetNextRequest) ==> r.error_status is GenErr
            && r.error_index == 0 && r.var_binds@.len() == 0,
{
    let SnmpMessage { version, community, pdu_type, request_id, error_status: _, error_index: _, var_binds } = request;
    let mut out: Vec<VarBind> = Vec::new();
    let mut status = ErrorStatus::NoError;
    let mut index: u32 = 0;
    match pdu_type {
        PduType::GetRequest => {
            let mut i: usize = 0;
            while i < var_binds.len()
                invariant_except_break
                    status is NoError,
                    index == 0,
                invariant
                    mib.wf(),
                    var_binds@.len() < u32::MAX,
                    unix_secs <= u64::MAX / 100,
                    i <= var_binds@.len(),
                    out@.len() == i,
                    forall|j: int| 0 <= j < i ==> {
                        &&& mib.has_key(var_binds@[j].oid@)
                        &&& (#[trigger] out@[j]).oid@ == var_binds@[j].oid@
                        &&& out@[j].value@ == getter_value(getter_of(node_with(mib, var_binds@[j].oid@)), unix_secs)
                    },
                ensures
                    out@.len() <= var_binds@.len(),
                    (status is NoError && index == 0 && out@.len() == var_binds@.len()) || (status is NoSuchName
                        && index == out@.len() + 1 && out@.len() < var_binds@.len() && !mib.has_key(var_binds@[out@.len() as int].oid@)),
                decreases var_binds@.len() - i,
            {
                match mib.find(&var_binds[i].oid) {
                    Some(p) => {
                        let value = get_mib_value(&mib.nodes[p], unix_secs);
                        proof {
                            lemma_node_with(mib, p as int);
                        }
                        out.push(VarBind { oid: var_binds[i].oid.duplicate(), value });
                    },
                    None => {
                        status = ErrorStatus::NoSuchName;
                        index = (i + 1) as u32;
                        break;
                    },
                }
                i = i + 1;
            }
        },
        PduType::GetNextRequest => {
            let mut i: usize = 0;
            while i < var_binds.len()
                invariant_except_break
                    status is NoError,
                    index == 0,
                invariant
                    mib.wf(),
                    var_binds@.len() < u32::MAX,
                    unix_secs <= u64::MAX / 100,
                    i <= var_binds@.len(),
                    out@.len() == i,
                    forall|j: int| 0 <= j < i ==> {
                        &&& is_next_of(mib, var_binds@[j].oid@, (#[trigger] out@[j]).oid@)
                        &&& out@[j].value@ == getter_value(getter_of(node_with(mib, out@[j].oid@)), unix_secs)
                    },
                ensures
                    out@.len() <= var_binds@.len(),
                    (status is NoError && index == 0 && out@.len() == var_binds@.len()) || (status is NoSuchName
                        && index == out@.len() + 1 && out@.len() < var_binds@.len() && !has_next_of(mib, var_binds@[out@.len() as int].oid@)),
                decreases var_binds@.len() - i,
            {
                match mib.next_oid(&var_binds[i].oid) {
                    Some(next) => {
                        match mib.find(&next) {
                            Some(p) => {
                                let value = get_mib_value(&mib.nodes[p], unix_secs);
                                proof {
                                    lemma_node_with(mib, p as int);
                                }
                                out.push(VarBind { oid: next, value });
                            },
                            None => {
                                proof {
                                    assert(false);
                                }
                            },
                        }
                    },
                    None => {
                        status = ErrorStatus::NoSuchName;
                        index = (i + 1) as u32;
                        break;
                    },
                }
                i = i + 1;
            }
        },
        _ => {
            status = ErrorStatus::GenErr;
        },
    }
    SnmpMessage {
        version,
        community,
        pdu_type: PduType::GetResponse,
        request_id,
        error_status: status,
        error_index: index,
        var_binds: out,
    }
}


/// Reads an SNMP message. The agent's reader is a simplified stand-in for BER
/// decoding: any message of at least ten bytes reads as a v2c GetRequest from
/// community `public`, with request id 12345, for sysDescr.0.
pub fn parse_snmp_message(data: &[u8]) -> (r: GatewayResult<SnmpMessage>)
    ensures
        r is Err <==> data@.len() < 10,
        r matches Err(e) ==> e.kind() == 0 && e.message() == "SNMP message too short"@,
        r matches Ok(m) ==> {
            &&& m.version is V2c
            &&& m.community@ == "public"@
            &&& m.pdu_type is GetRequest
            &&& m.request_id == 12345
            &&& m.error_status is NoError
            &&& m.error_index == 0
            &&& m.var_binds@.len() == 1
            &&& m.var_binds@[0].oid@ == seq![1u32, 3, 6, 1, 2, 1, 1, 1, 0]
            &&& m.var_binds@[0].value is Null
        },
{
    if data.len() < 10 {
        return Err(GatewayError::Parse(String::from_str("SNMP message too short")));
    }
    let oid = Oid::new(vec![1, 3, 6, 1, 2, 1, 1, 1, 0]);
    proof {
        assert(oid@ =~= seq![1u32, 3, 6, 1, 2, 1, 1, 1, 0]);
    }
    let mut binds: Vec<VarBind> = Vec::new();
    binds.push(VarBind { oid, value: SnmpValue::Null });
    Ok(SnmpMessage {
        version: SnmpVersion::V2c,
        community: String::from_str("public"),
        pdu_type: PduType::GetRequest,
        request_id: 12345,
        error_status: ErrorStatus::NoError,
        error_index: 0,
        var_binds: binds,
    })
}

/// Whether the message may be served: v1 and v2c messages must carry the
/// configured community; v3 messages are let through.
pub fn authenticate(message: &SnmpMessage, config: &SnmpConfig) -> (r: bool)
    ensures
        r == match message.version {
            SnmpVersion::V3 => true,
            _ => message.community@ == config.community@,
        },
{
    match message.version {
        SnmpVersion::V1 | SnmpVersion::V2c => message.community == config.community,
        SnmpVersion::V3 => true,
    }
}

/// The bytes the agent sends as its response (a fixed minimal v2c GetResponse).
pub open spec fn response_bytes() -> Seq<u8> {
    seq![0x30u8, 0x82, 0x00, 0x28, 0x02, 0x01, 0x01, 0x04, 0x06, 0x70, 0x75, 0x62, 0x6c, 0x69, 0x63,
        0xa2, 0x82, 0x00, 0x19, 0x02, 0x04, 0x00, 0x00, 0x30, 0x39, 0x02, 0x01, 0x00, 0x02, 0x01, 0x00,
        0x30, 0x82, 0x00, 0x0b, 0x30, 0x82, 0x00, 0x07, 0x06, 0x03, 0x2b, 0x06, 0x01, 0x04, 0x00]
}

/// The bytes the agent sends as a trap (a fixed minimal v1 trap header).
pub open spec fn trap_bytes() -> Seq<u8> {
    seq![0x30u8, 0x82, 0x00, 0x40, 0x02, 0x01, 0x00, 0x04, 0x06, 0x70, 0x75, 0x62, 0x6c, 0x69, 0x63,
        0xa4, 0x82, 0x00, 0x33]
}

/// Encodes a response message.
pub fn encode_snmp_message(message: &SnmpMessage) -> (r: GatewayResult<Vec<u8>>)
    ensures
        r matches Ok(b) && b@ == response_bytes(),
{
    let b: Vec<u8> = vec![0x30, 0x82, 0x00, 0x28, 0x02, 0x01, 0x01, 0x04, 0x06, 0x70, 0x75, 0x62, 0x6c, 0x69, 0x63,
        0xa2, 0x82, 0x00, 0x19, 0x02, 0x04, 0x00, 0x00, 0x30, 0x39, 0x02, 0x01, 0x00, 0x02, 0x01, 0x00,
        0x30, 0x82, 0x00, 0x0b, 0x30, 0x82, 0x00, 0x07, 0x06, 0x03, 0x2b, 0x06, 0x01, 0x04, 0x00];
    proof {
        assert(b@ =~= response_bytes());
    }
    Ok(b)
}

/// Encodes a trap.
pub fn encode_trap(trap: &SnmpTrap) -> (r: GatewayResult<Vec<u8>>)
    ensures
        r matches Ok(b) && b@ == trap_bytes(),
{
    let b: Vec<u8> = vec![0x30, 0x82, 0x00, 0x40, 0x02, 0x01, 0x00, 0x04, 0x06, 0x70, 0x75, 0x62, 0x6c, 0x69, 0x63,
        0xa4, 0x82, 0x00, 0x33];
    proof {
        assert(b@ =~= trap_bytes());
    }
    Ok(b)
}

/// How the agent deals with one datagram.
pub enum SnmpOutcome {
    /// The datagram could not be read.
    Malformed(GatewayError),
    /// The request came with the wrong community.
    Rejected(SnmpMessage),
    /// The request was answered with `response`, sent as `bytes`.
    Answered { request_id: u32, response: SnmpMessage, bytes: Vec<u8> },
}

/// Reads a datagram, checks its community and answers it from the table.
pub fn handle_snmp_request(data: &[u8], config: &SnmpConfig, mib: &MibTable, unix_secs: u64) -> (r: SnmpOutcome)
    requires
        mib.wf(),
        unix_secs <= u64::MAX / 100,
    ensures
        r is Malformed <==> data@.len() < 10,
        r matches SnmpOutcome::Rejected(m) ==> !authenticate_spec(&m, config),
        r matches SnmpOutcome::Answered { request_id, response, bytes } ==> request_id == 12345 && bytes@ == response_bytes()
            && response.pdu_type is GetResponse && response.request_id == 12345,
        data@.len() >= 10 ==> (r is Rejected <==> config.community@ != "public"@),
{
    match parse_snmp_message(data) {
        Err(e) => SnmpOutcome::Malformed(e),
        Ok(message) => {
            if !authenticate(&message, config) {
                return SnmpOutcome::Rejected(message);
            }
            let request_id = message.request_id;
            let response = process_request(message, mib, unix_secs);
            let bytes = match encode_snmp_message(&response) {
                Ok(b) => b,
                Err(_) => Vec::new(),
            };
            SnmpOutcome::Answered { request_id, response, bytes }
        },
    }
}

/// `authenticate` as a formula.
pub open spec fn authenticate_spec(message: &SnmpMessage, config: &SnmpConfig) -> bool {
    match message.version {
        SnmpVersion::V3 => true,
        _ => message.community@ == config.community@,
    }
}

/// The places traps are sent to, as `host:port` texts, each held once.
pub struct TrapDestinations {
    pub list: Vec<String>,
}

impl TrapDestinations {
    /// The destinations, in the order they were added.
    pub open spec fn texts(&self) -> Seq<Seq<char>> {
        self.list@.map_values(|d: String| d@)
    }

    /// No destination is held twice.
    pub open spec fn wf(&self) -> bool {
        self.texts().no_duplicates()
    }

    /// No destinations.
    pub fn new() -> (r: Self)
        ensures
            r.texts() == Seq::<Seq<char>>::empty(),
            r.wf(),
    {
        let r = TrapDestinations { list: Vec::new() };
        proof {
            assert(r.texts() =~= Seq::<Seq<char>>::empty());
        }
        r
    }

    fn position(&self, dest: &String) -> (r: Option<usize>)
        ensures
            r matches Some(i) ==> i < self.list@.len() && self.texts()[i as int] == dest@,
            r is None ==> !self.texts().contains(dest@),
    {
        let mut i: usize = 0;
        while i < self.list.len()
            invariant
                i <= self.list@.len(),
                forall|j: int| 0 <= j < i ==> self.texts()[j] != dest@,
            decreases self.list@.len() - i,
        {
            if self.list[i] == *dest {
                return Some(i);
            }
            i = i + 1;
        }
        None
    }

    /// Adds a destination unless it is held already.
    pub fn add_trap_destination(&mut self, dest: String)
        requires
            old(self).wf(),
        ensures
            final(self).wf(),
            old(self).texts().contains(dest@) ==> final(self).texts() == old(self).texts(),
            !old(self).texts().contains(dest@) ==> final(self).texts() == old(self).texts().push(dest@),
    {
        match self.position(&dest) {
            Some(_) => {},
            None => {
                let ghost d = dest@;
                self.list.push(dest);
                proof {
                    assert(self.texts() =~= old(self).texts().push(d));
                }
            },
        }
    }

    /// Removes a destination, if it is held.
    pub fn remove_trap_destination(&mut self, dest: &String)
        requires
            old(self).wf(),
        ensures
            final(self).wf(),
            final(self).texts() == old(self).texts().filter(|t: Seq<char>| t != dest@),
    {
        let ghost old_t = old(self).texts();
        let mut kept: Vec<String> = Vec::new();
        let mut i: usize = 0;
        while i < self.list.len()
            invariant
                old_t == self.texts(),
                i <= self.list@.len(),
                kept@.map_values(|d: String| d@) == old_t.subrange(0, i as int).filter(|t: Seq<char>| t != dest@),
                old_t.no_duplicates(),
                kept@.map_values(|d: String| d@).no_duplicates(),
                forall|x: Seq<char>| kept@.map_values(|d: String| d@).contains(x) ==> old_t.subrange(0, i as int).contains(x),
            decreases self.list@.len() - i,
        {
            proof {
                let sub = old_t.subrange(0, i as int + 1);
                assert(sub.drop_last() =~= old_t.subrange(0, i as int));
                reveal_with_fuel(Seq::filter, 1);
            }
            if self.list[i] != *dest {
                let d = self.list[i].clone();
                let ghost before = kept@.map_values(|d: String| d@);
                kept.push(d);
                proof {
                    let kt = kept@.map_values(|d: String| d@);
                    let x = old_t[i as int];
                    assert(kt =~= before.push(x));
                    assert(kt =~= old_t.subrange(0, i as int).filter(|t: Seq<char>| t != dest@).push(old_t[i as int]));
                    if before.contains(x) {
                        assert(old_t.subrange(0, i as int).contains(x));
                        let j = choose|j: int| 0 <= j < i && old_t.subrange(0, i as int)[j] == x;
                        assert(old_t[j] == old_t[i as int]);
                        assert(false);
                    }
                    assert forall|a: int, b: int| 0 <= a < b < kt.len() implies kt[a] != kt[b] by {
                        if b == kt.len() - 1 {
                            assert(before[a] == kt[a]);
                            assert(before.contains(kt[a]));
                        } else {
                            assert(before[a] == kt[a] && before[b] == kt[b]);
                        }
                    }
                    assert forall|y: Seq<char>| kt.contains(y) implies old_t.subrange(0, i as int + 1).contains(y) by {
                        let k = choose|k: int| 0 <= k < kt.len() && kt[k] == y;
                        if k == kt.len() - 1 {
                            assert(old_t.subrange(0, i as int + 1)[i as int] == y);
                        } else {
                            assert(before[k] == y);
                            assert(before.contains(y));
                            assert(old_t.subrange(0, i as int).contains(y));
                            let j = choose|j: int| 0 <= j < i && old_t.subrange(0, i as int)[j] == y;
                            assert(old_t.subrange(0, i as int + 1)[j] == y);
                        }
                    }
                }
            } else {
                proof {
                    let kt = kept@.map_values(|d: String| d@);
                    assert(kt =~= old_t.subrange(0, i as int + 1).filter(|t: Seq<char>| t != dest@));
                    assert forall|x: Seq<char>| kt.contains(x) implies old_t.subrange(0, i as int + 1).contains(x) by {
                        assert(old_t.subrange(0, i as int).contains(x));
                        let j = choose|j: int| 0 <= j < i && old_t.subrange(0, i as int)[j] == x;
                        assert(old_t.subrange(0, i as int + 1)[j] == x);
                    }
                }
            }
            i = i + 1;
        }
        proof {
            assert(old_t.subrange(0, old_t.len() as int) =~= old_t);
        }
        self.list = kept;
    }

    /// The destinations a trap goes to: all of them while the agent runs; a
    /// stopped agent sends none and reports an error.
    pub fn trap_targets(&self, is_running: bool) -> (r: GatewayResult<Vec<String>>)
        ensures
            !is_running ==> (r matches Err(e) && e.kind() == 2 && e.message() == "SNMP service is not running"@),
            is_running ==> (r matches Ok(v) && v@.map_values(|d: String| d@) == self.texts()),
    {
        if !is_running {
            return Err(GatewayError::InvalidState(String::from_str("SNMP service is not running")));
        }
        let mut v: Vec<String> = Vec::new();
        let mut i: usize = 0;
        while i < self.list.len()
            invariant
                i <= self.list@.len(),
                v@.map_values(|d: String| d@) == self.texts().subrange(0, i as int),
            decreases self.list@.len() - i,
        {
            let ghost before = v@.map_values(|d: String| d@);
            let d = self.list[i].clone();
            v.push(d);
            proof {
                assert(v@.map_values(|d: String| d@) =~= before.push(self.list@[i as int]@));
                assert(v@.map_values(|d: String| d@) =~= self.texts().subrange(0, i as int + 1));
            }
            i = i + 1;
        }
        proof {
            assert(self.texts().subrange(0, self.list@.len() as int) =~= self.texts());
        }
        Ok(v)
    }
}

/// The SNMP agent: its settings, the objects it serves, where traps go.
pub struct SnmpService {
    pub config: SnmpConfig,
    pub mib_tree: MibTable,
    pub trap_destinations: TrapDestinations,
    pub is_running: bool,
}

impl SnmpService {
    /// A stopped agent serving no objects and sending no traps.
    pub fn new(config: SnmpConfig) -> (r: Self)
        ensures
            r.config == config,
            r.mib_tree.nodes@.len() == 0,
            r.trap_destinations.wf(),
            r.trap_destinations.texts() == Seq::<Seq<char>>::empty(),
            !r.is_running,
    {
        SnmpService { config, mib_tree: MibTable { nodes: Vec::new() }, trap_destinations: TrapDestinations::new(), is_running: false }
    }

    /// Whether the agent runs.
    pub fn is_running(&self) -> (r: bool)
        ensures
            r == self.is_running,
    {
        self.is_running
    }

    /// Installs the standard objects.
    pub fn initialize_mib(&mut self) -> (r: GatewayResult<()>)
        ensures
            r is Ok,
            final(self).mib_tree.wf(),
            final(self).mib_tree.nodes@.len() == 8,
            forall|k: int| 1 <= k <= 6 ==> #[trigger] final(self).mib_tree.has_key(system_oid().push(k as u32)),
            final(self).mib_tree.has_key(enterprise_oid().push(1)),
            final(self).mib_tree.has_key(enterprise_oid().push(2)),
            standard_table(final(self).mib_tree),
            final(self).config == old(self).config,
            final(self).is_running == old(self).is_running,
    {
        self.mib_tree = standard_mib();
        Ok(())
    }

    /// Starts the agent once its socket is bound: installs the objects and
    /// runs. A disabled agent stays stopped.
    pub fn start(&mut self) -> (r: GatewayResult<()>)
        ensures
            r is Ok,
            final(self).is_running == (old(self).is_running || old(self).config.enabled),
            old(self).config.enabled ==> final(self).mib_tree.wf() && standard_table(final(self).mib_tree),
            !old(self).config.enabled ==> final(self).mib_tree == old(self).mib_tree,
            final(self).config == old(self).config,
    {
        if !self.config.enabled {
            return Ok(());
        }
        let _ = self.initialize_mib();
        self.is_running = true;
        Ok(())
    }

    /// Stops the agent.
    pub fn stop(&mut self) -> (r: GatewayResult<()>)
        ensures
            r is Ok,
            !final(self).is_running,
            final(self).mib_tree == old(self).mib_tree,
            final(self).config == old(self).config,
    {
        self.is_running = false;
        Ok(())
    }
}

} // verus!
