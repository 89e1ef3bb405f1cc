//! Measurement records for comparing encodings, and their CSV form.
//!
//! The harness that runs the clock lives outside this crate; here are the
//! value objects it fills in — durations carried as plain nanosecond
//! counts — and an exactly specified CSV rendering.

use vstd::prelude::*;

verus! {

/// The decimal digits of `n`, most significant first.
pub open spec fn dec_bytes(n: nat) -> Seq<u8>
    decreases n,
{
    if n < 10 {
        seq![(48 + n) as u8]
    } else {
        dec_bytes(n / 10).push((48 + n % 10) as u8)
    }
}

/// Append the decimal form of `n`.
pub fn write_dec_u64(n: u64, out: &mut Vec<u8>)
    ensures
        final(out)@ == old(out)@ + dec_bytes(n as nat),
{
    if n == 0 {
        out.push(48);
        proof {
            assert(out@ =~= old(out)@ + dec_bytes(0));
        }
        return ;
    }
    let mut tmp: Vec<u8> = Vec::new();
    let mut m: u64 = n;
    let ghost mut acc: Seq<u8> = Seq::empty();
    while m > 0
        invariant
            m > 0 ==> dec_bytes(n as nat) == dec_bytes(m as nat) + acc,
            m == 0 ==> dec_bytes(n as nat) == acc,
            tmp@.len() == acc.len(),
            forall|k: int| 0 <= k < acc.len() ==> tmp@[k] == acc[acc.len() - 1 - k],
        decreases m,
    {
        let d: u8 = (m % 10) as u8 + 48;
        let ghost acc_prev = acc;
        let ghost m_prev = m as nat;
        proof {
            acc = seq![d] + acc;
        }
        tmp.push(d);
        m = m / 10;
        proof {
            if m_prev < 10 {
                assert(dec_bytes(m_prev) =~= seq![d]);
                assert(dec_bytes(n as nat) =~= seq![d] + acc_prev);
            } else {
                assert(dec_bytes(m_prev) == dec_bytes(m_prev / 10).push((48 + m_prev % 10) as u8));
                assert(dec_bytes(m_prev / 10).push(d) + acc_prev =~= dec_bytes(m_prev / 10) + (
                seq![d] + acc_prev));
                assert(dec_bytes(n as nat) =~= dec_bytes(m as nat) + acc);
            }
            assert forall|k: int| 0 <= k < acc.len() implies tmp@[k] == acc[acc.len() - 1 - k] by {
                if k < acc.len() - 1 {
                    assert(tmp@[k] == acc_prev[acc_prev.len() - 1 - k]);
                    assert(acc[acc.len() - 1 - k] == acc_prev[acc_prev.len() - 1 - k]);
                }
            }
        }
    }
    let count = tmp.len();
    let mut j: usize = 0;
    let ghost mid = out@;
    while j < count
        invariant
            j <= count,
            count == tmp@.len(),
            count == acc.len(),
            count >= 1,
            dec_bytes(n as nat) == acc,
            forall|k: int| 0 <= k < acc.len() ==> tmp@[k] == acc[acc.len() - 1 - k],
            out@ == mid + acc.take(j as int),
        decreases count - j,
    {
        let b = tmp[count - 1 - j];
        out.push(b);
        proof {
            assert(tmp@[count - 1 - j] == acc[j as int]);
            assert(acc.take(j + 1) =~= acc.take(j as int).push(acc[j as int]));
            assert(out@ =~= mid + acc.take(j + 1));
        }
        j = j + 1;
    }
    proof {
        assert(acc.take(count as int) =~= acc);
    }
}

/// The byte of the field separator.
pub const COMMA: u8 = 44;

/// The byte of the record separator.
pub const NEWLINE: u8 = 10;

/// What one measured batch size cost: encoded size and the two times, in
/// nanoseconds.
#[derive(Debug, Clone, Copy, PartialEq, Eq, Structural)]
pub struct EncodeMeasurement {
    pub num_elements: usize,
    pub bytes: usize,
    /// Wall-clock encode time in nanoseconds.
    pub encode_time: u64,
    /// Wall-clock decode time in nanoseconds.
    pub decode_time: u64,
}

/// How long seeking past a container took, plain and compressed, in
/// nanoseconds.
#[derive(Debug, Clone, Copy, PartialEq, Eq, Structural)]
pub struct SeekMeasurement {
    pub num_elements: usize,
    /// Seek time over the uncompressed form, in nanoseconds.
    pub normal: u64,
    /// Seek time over the compressed form, in nanoseconds.
    pub compressed: u64,
}

/// A value that renders as one or more CSV rows.
pub trait ToCsv {
    /// The column headers, one string per column.
    fn headers() -> (h: Vec<String>);

    /// The CSV rows this value renders to.
    spec fn csv_bytes(&self) -> Seq<u8>;

    /// Append this value's CSV rows.
    fn to_csv(&self, out: &mut Vec<u8>)
        ensures
            final(out)@ == old(out)@ + self.csv_bytes(),
    ;
}

impl ToCsv for EncodeMeasurement {
    fn headers() -> (h: Vec<String>) {
        let mut h: Vec<String> = Vec::new();
        h.push("elements".to_owned());
        h.push("bytes".to_owned());
        h.push("encode_time".to_owned());
        h.push("decode_time".to_owned());
        h
    }

    open spec fn csv_bytes(&self) -> Seq<u8> {
        dec_bytes(self.num_elements as nat) + seq![COMMA] + dec_bytes(self.bytes as nat) + seq![
            COMMA,
        ] + dec_bytes(self.encode_time as nat) + seq![COMMA] + dec_bytes(self.decode_time as nat)
            + seq![NEWLINE]
    }

    fn to_csv(&self, out: &mut Vec<u8>) {
        write_dec_u64(self.num_elements as u64, out);
        out.push(COMMA);
        write_dec_u64(self.bytes as u64, out);
        out.push(COMMA);
        write_dec_u64(self.encode_time, out);
        out.push(COMMA);
        write_dec_u64(self.decode_time, out);
        out.push(NEWLINE);
        proof {
            assert(out@ =~= old(out)@ + self.csv_bytes());
        }
    }
}

impl ToCsv for SeekMeasurement {
    fn headers() -> (h: Vec<String>) {
        let mut h: Vec<String> = Vec::new();
        h.push("elements".to_owned());
        h.push("compressed".to_owned());
        h.push("time".to_owned());
        h
    }

    open spec fn csv_bytes(&self) -> Seq<u8> {
        dec_bytes(self.num_elements as nat) + seq![COMMA, 48u8, COMMA] + dec_bytes(
            self.normal as nat,
        ) + seq![NEWLINE] + dec_bytes(self.num_elements as nat) + seq![COMMA, 49u8, COMMA]
            + dec_bytes(self.compressed as nat) + seq![NEWLINE]
    }

    fn to_csv(&self, out: &mut Vec<u8>) {
        write_dec_u64(self.num_elements as u64, out);
        out.push(COMMA);
        out.push(48);
        out.push(COMMA);
        write_dec_u64(self.normal, out);
        out.push(NEWLINE);
        write_dec_u64(self.num_elements as u64, out);
        out.push(COMMA);
        out.push(49);
        out.push(COMMA);
        write_dec_u64(self.compressed, out);
        out.push(NEWLINE);
        proof {
            assert(out@ =~= old(out)@ + self.csv_bytes());
        }
    }
}

/// The CSV rows of a run of values, in order.
pub open spec fn csv_rows<T: ToCsv>(s: Seq<T>) -> Seq<u8>
    decreases s.len(),
{
    if s.len() == 0 {
        Seq::empty()
    } else {
        s[0].csv_bytes() + csv_rows(s.drop_first())
    }
}

/// Appending one value extends the rows on the right.
pub proof fn lemma_csv_rows_push<T: ToCsv>(s: Seq<T>, v: T)
    ensures
        csv_rows(s.push(v)) == csv_rows(s) + v.csv_bytes(),
    decreases s.len(),
{
    reveal_with_fuel(csv_rows, 3);
    if s.len() == 0 {
        assert(s.push(v)[0] == v);
        assert(s.push(v).drop_first() =~= Seq::<T>::empty());
        assert(csv_rows(s.push(v)) =~= csv_rows(s) + v.csv_bytes());
    } else {
        assert(s.push(v)[0] == s[0]);
        assert(s.push(v).drop_first() =~= s.drop_first().push(v));
        lemma_csv_rows_push(s.drop_first(), v);
        assert(csv_rows(s.push(v)) =~= csv_rows(s) + v.csv_bytes());
    }
}

/// A collection that renders as a CSV body.
pub trait CollectToCsv {
    /// The CSV rows of the whole collection, without headers.
    spec fn csv_body(&self) -> Seq<u8>;

    /// Append the collection's CSV rows.
    fn collect_csv(&self, out: &mut Vec<u8>)
        ensures
            final(out)@ == old(out)@ + self.csv_body(),
    ;
}

impl<T: ToCsv> CollectToCsv for Vec<T> {
    open spec fn csv_body(&self) -> Seq<u8> {
        csv_rows(self@)
    }

    fn collect_csv(&self, out: &mut Vec<u8>) {
        let n = self.len();
        let mut i: usize = 0;
        proof {
            assert(self@.take(0) =~= Seq::<T>::empty());
        }
        while i < n
            invariant
                i <= n,
                n == self@.len(),
                out@ == old(out)@ + csv_rows(self@.take(i as int)),
            decreases n - i,
        {
            self[i].to_csv(out);
            proof {
                lemma_csv_rows_push(self@.take(i as int), self@[i as int]);
                assert(self@.take(i + 1) =~= self@.take(i as int).push(self@[i as int]));
                assert(out@ =~= old(out)@ + csv_rows(self@.take(i + 1)));
            }
            i = i + 1;
        }
        proof {
            assert(self@.take(n as int) =~= self@);
        }
    }
}

/// The label scales used when reporting sizes and counts.
#[derive(Debug, Clone, Copy, PartialEq, Eq, Structural)]
pub enum Scale {
    M,
    G,
    T,
}

impl Scale {
    /// The unit prefix this scale is labelled with.
    pub fn label(&self) -> (s: &'static str)
        ensures
            s@ == match self {
                Scale::M => "M"@,
                Scale::G => "G"@,
                Scale::T => "T"@,
            },
    {
        match self {
            Scale::M => "M",
            Scale::G => "G",
            Scale::T => "T",
        }
    }
}

/// Configuration of a measurement sweep: how many elements to step up to,
/// and the reusable buffers the runs fill.
pub struct MeasurementRunner {
    pub step: usize,
    pub max: usize,
    pub data: crate::util::Data<Vec<u8>>,
}

impl MeasurementRunner {
    /// A sweep from zero to `max` elements in steps of `step`.
    pub fn new(max: usize, step: usize) -> (r: MeasurementRunner)
        ensures
            r.max == max,
            r.step == step,
    {
        MeasurementRunner { data: crate::util::Data::<Vec<u8>>::with_capacity(0), step, max }
    }
}

} // verus!
