use vstd::prelude::*;

verus! {

#[verifier::external_type_specification]
#[verifier::external_body]
pub struct ExMd5Context(md5::Context);

/// The MD5 digest of a byte sequence, as computed by the `md5` crate, its
/// sixteen bytes read as one big-endian number.
pub uninterp spec fn md5_digest(data: Seq<u8>) -> u128;

/// An MD5 computation fed piece by piece, so that a file can be hashed in
/// blocks without ever holding all of it in memory.
pub struct Md5Stream {
    ctx: md5::Context,
    fed: Ghost<Seq<u8>>,
}

impl Md5Stream {
    /// Every byte fed so far, in order.
    pub closed spec fn fed(&self) -> Seq<u8> {
        self.fed@
    }

    /// A stream that has been fed nothing yet.
    pub fn new() -> (s: Self)
        ensures
            s.fed() == Seq::<u8>::empty(),
    {
        md5_context_new()
    }

    /// Feeds the next block of bytes.
    pub fn feed(&mut self, chunk: &[u8])
        ensures
            final(self).fed() == old(self).fed() + chunk@,
    {
        md5_context_consume(self, chunk)
    }

    /// The digest of everything fed, however it was cut into blocks.
    pub fn finish(self) -> (d: u128)
        ensures
            d == md5_digest(self.fed()),
    {
        md5_context_finalize(self)
    }
}

/// Calls `md5::Context::new`, a context that has consumed nothing.
#[verifier::external_body]
fn md5_context_new() -> (s: Md5Stream)
    ensures
        s.fed@ == Seq::<u8>::empty(),
{
    Md5Stream { ctx: md5::Context::new(), fed: Ghost(Seq::empty()) }
}

/// Calls `md5::Context::consume`, which appends `chunk` to the input that
/// the context has consumed so far.
#[verifier::external_body]
fn md5_context_consume(s: &mut Md5Stream, chunk: &[u8])
    ensures
        final(s).fed@ == old(s).fed@ + chunk@,
{
    s.ctx.consume(chunk)
}

/// Calls `md5::Context::finalize`, whose digest is the MD5 digest of all the
/// input that the context consumed, in order; its bytes are read as a
/// big-endian number.
#[verifier::external_body]
fn md5_context_finalize(s: Md5Stream) -> (d: u128)
    ensures
        d == md5_digest(s.fed@),
{
    u128::from_be_bytes(s.ctx.finalize().0)
}

/// The lower-case hexadecimal digit for a value below sixteen.
pub open spec fn hex_char(n: int) -> char {
    if n < 10 {
        (('0' as int) + n) as char
    } else {
        (('a' as int) + n - 10) as char
    }
}

/// The last `count` lower-case hexadecimal digits of `n`, most significant
/// first, with leading zeros.
pub open spec fn hex_digits(n: nat, count: nat) -> Seq<char>
    decreases count,
{
    if count == 0 {
        Seq::empty()
    } else {
        hex_digits(n / 16, (count - 1) as nat).push(hex_char((n % 16) as int))
    }
}

fn hex_digit(n: u8) -> (s: &'static str)
    requires
        n < 16,
    ensures
        s@ == seq![hex_char(n as int)],
{
    proof {
        reveal_strlit("0");
        reveal_strlit("1");
        reveal_strlit("2");
        reveal_strlit("3");
        reveal_strlit("4");
        reveal_strlit("5");
        reveal_strlit("6");
        reveal_strlit("7");
        reveal_strlit("8");
        reveal_strlit("9");
        reveal_strlit("a");
        reveal_strlit("b");
        reveal_strlit("c");
        reveal_strlit("d");
        reveal_strlit("e");
        reveal_strlit("f");
    }
    match n {
        0 => "0",
        1 => "1",
        2 => "2",
        3 => "3",
        4 => "4",
        5 => "5",
        6 => "6",
        7 => "7",
        8 => "8",
        9 => "9",
        10 => "a",
        11 => "b",
        12 => "c",
        13 => "d",
        14 => "e",
        _ => "f",
    }
}

fn push_hex_digits(out: &mut String, n: u128, count: u8)
    ensures
        final(out)@ == old(out)@ + hex_digits(n as nat, count as nat),
    decreases count,
{
    if count > 0 {
        push_hex_digits(out, n / 16, count - 1);
        out.append(hex_digit((n % 16) as u8));
    }
}

/// The digest as the log shows it: 32 lower-case hexadecimal digits, which
/// is what `format!("{:x}", digest)` writes for an `md5::Digest`.
pub fn digest_hex(digest: u128) -> (r: String)
    ensures
        r@ == hex_digits(digest as nat, 32),
        r@.len() == 32,
        hex_value(r@) == digest,
        forall|i: int| 0 <= i < 32 ==> ('0' <= #[trigger] r@[i] <= '9') || ('a' <= r@[i] <= 'f'),
{
    proof {
        lemma_digest_hex_reads_back(digest);
        lemma_hex_reads_back(digest as nat, 32);
    }
    let mut r = String::new();
    push_hex_digits(&mut r, digest, 32);
    proof {
        lemma_hex_digits_len(digest as nat, 32);
    }
    r
}

proof fn lemma_hex_digits_len(n: nat, count: nat)
    ensures
        hex_digits(n, count).len() == count,
    decreases count,
{
    if count > 0 {
        lemma_hex_digits_len(n / 16, (count - 1) as nat);
    }
}

/// Sixteen to the power `c`.
pub open spec fn pow16(c: nat) -> nat
    decreases c,
{
    if c == 0 {
        1
    } else {
        16 * pow16((c - 1) as nat)
    }
}

/// The value of one hexadecimal digit, `0`-`9` or `a`-`f`.
pub open spec fn hex_digit_value(c: char) -> int {
    if c <= '9' {
        (c as int) - ('0' as int)
    } else {
        (c as int) - ('a' as int) + 10
    }
}

/// The number that a text of hexadecimal digits denotes.
pub open spec fn hex_value(text: Seq<char>) -> int
    decreases text.len(),
{
    if text.len() == 0 {
        0
    } else {
        hex_value(text.drop_last()) * 16 + hex_digit_value(text.last())
    }
}

proof fn lemma_hex_char(d: int)
    requires
        0 <= d < 16,
    ensures
        hex_digit_value(hex_char(d)) == d,
        ('0' <= hex_char(d) <= '9') || ('a' <= hex_char(d) <= 'f'),
{
    assert(('0' as int) == 48 && ('9' as int) == 57 && ('a' as int) == 97 && ('f' as int) == 102);
    if d < 10 {
        assert((hex_char(d) as int) == 48 + d);
    } else {
        assert((hex_char(d) as int) == 97 + d - 10);
    }
}

/// The hexadecimal text of a number reads back as that number: `count`
/// lower-case digits whose value is `n` taken modulo sixteen to the `count`,
/// i.e. `n` itself when it has at most `count` digits.
pub proof fn lemma_hex_reads_back(n: nat, count: nat)
    ensures
        hex_digits(n, count).len() == count,
        forall|i: int|
            0 <= i < count ==> ('0' <= #[trigger] hex_digits(n, count)[i] <= '9') || ('a'
                <= hex_digits(n, count)[i] <= 'f'),
        hex_value(hex_digits(n, count)) + pow16(count) * (n / pow16(count)) == n,
    decreases count,
{
    if count == 0 {
        assert(n / 1 == n);
        assert(pow16(0) == 1);
        assert(hex_digits(n, 0) == Seq::<char>::empty());
        assert(hex_value(Seq::<char>::empty()) == 0);
        assert(pow16(0) * (n / pow16(0)) == n);
    } else {
        let q = n / 16;
        let r = n % 16;
        let c1 = (count - 1) as nat;
        let p = pow16(c1);
        lemma_hex_reads_back(q, c1);
        lemma_hex_char(r as int);
        let s = hex_digits(n, count);
        assert(s.drop_last() == hex_digits(q, c1));
        assert(s.last() == hex_char(r as int));
        assert(hex_value(s) == hex_value(hex_digits(q, c1)) * 16 + r);
        assert forall|i: int| 0 <= i < count implies ('0' <= #[trigger] s[i] <= '9') || ('a' <= s[i]
            <= 'f') by {
            if i < count - 1 {
                assert(s[i] == hex_digits(q, c1)[i]);
            }
        }
        lemma_pow16_positive(c1);
        vstd::arithmetic::div_mod::lemma_div_denominator(n as int, 16, p as int);
        let hv = hex_value(hex_digits(q, c1));
        let qp = (q as int) / (p as int);
        assert((n as int) / (16 * (p as int)) == qp);
        assert(n == 16 * q + r);
        assert(pow16(count) == 16 * p);
        assert(n / pow16(count) == qp);
        assert(hv * 16 + r + (16 * p) * qp == n) by (nonlinear_arith)
            requires
                hv + p * qp == q,
                n == 16 * q + r,
        ;
        let a = pow16(count);
        let b = n / pow16(count);
        assert(a == 16 * p);
        assert(b == qp);
        assert(a * b == (16 * p) * qp);
        assert(hex_value(s) + a * b == n);
    }
}

proof fn lemma_pow16_positive(c: nat)
    ensures
        pow16(c) > 0,
    decreases c,
{
    if c > 0 {
        lemma_pow16_positive((c - 1) as nat);
    }
}

/// The text of a digest is its 32 hexadecimal digits, which read back as the
/// digest.
pub proof fn lemma_digest_hex_reads_back(digest: u128)
    ensures
        hex_digits(digest as nat, 32).len() == 32,
        hex_value(hex_digits(digest as nat, 32)) == digest,
{
    lemma_hex_reads_back(digest as nat, 32);
    reveal_with_fuel(pow16, 33);
    assert(pow16(32) == 0x1_0000_0000_0000_0000_0000_0000_0000_0000nat);
    assert((digest as nat) / pow16(32) == 0);
}

} // verus!
