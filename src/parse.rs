//! Reading unsigned decimal numbers and comma-separated port lists.
//!
//! A number is read the way Rust's `str::parse` reads an unsigned integer:
//! an optional leading `+`, then one or more ASCII digits and nothing else,
//! with a value that fits the target type. Surrounding spaces make it
//! unreadable.
use vstd::prelude::*;
use vstd::string::StrSliceExecFns;

verus! {

pub open spec fn is_digit(c: char) -> bool {
    '0' <= c && c <= '9'
}

pub open spec fn digit_value(c: char) -> nat {
    (c as int - '0' as int) as nat
}

/// The value of a string of decimal digits, most significant first.
pub open spec fn digits_value(d: Seq<char>) -> nat
    decreases d.len(),
{
    if d.len() == 0 {
        0
    } else {
        digits_value(d.drop_last()) * 10 + digit_value(d.last())
    }
}

/// The text after an optional leading `+`.
pub open spec fn unsigned_digits(f: Seq<char>) -> Seq<char> {
    if f.len() > 0 && f[0] == '+' {
        f.drop_first()
    } else {
        f
    }
}

pub open spec fn all_digits(d: Seq<char>) -> bool {
    forall|i: int| 0 <= i < d.len() ==> #[trigger] is_digit(d[i])
}

/// The number that `f` spells, if it is one no larger than `max`.
pub open spec fn parsed_unsigned(f: Seq<char>, max: nat) -> Option<nat> {
    let d = unsigned_digits(f);
    if d.len() > 0 && all_digits(d) && digits_value(d) <= max {
        Some(digits_value(d))
    } else {
        None
    }
}

/// The pieces of `s` between commas; a string without a comma is one piece.
pub open spec fn fields(s: Seq<char>) -> Seq<Seq<char>>
    decreases s.len(),
{
    if s.len() == 0 {
        seq![Seq::<char>::empty()]
    } else {
        let f = fields(s.drop_last());
        if s.last() == ',' {
            f.push(Seq::<char>::empty())
        } else {
            f.update(f.len() - 1, f.last().push(s.last()))
        }
    }
}

/// The readable ports among `fs`, in order; unreadable pieces are skipped.
pub open spec fn readable_ports(fs: Seq<Seq<char>>) -> Seq<u16>
    decreases fs.len(),
{
    if fs.len() == 0 {
        seq![]
    } else {
        let rest = readable_ports(fs.drop_last());
        match parsed_unsigned(fs.last(), 0xffff) {
            Some(v) => rest.push(v as u16),
            None => rest,
        }
    }
}

/// The ports that a comma-separated list names.
pub open spec fn port_list(s: Seq<char>) -> Seq<u16> {
    readable_ports(fields(s))
}

proof fn lemma_fields_nonempty(s: Seq<char>)
    ensures
        fields(s).len() >= 1,
    decreases s.len(),
{
    if s.len() > 0 {
        lemma_fields_nonempty(s.drop_last());
    }
}

proof fn lemma_unsigned_digits_push(f: Seq<char>, c: char)
    requires
        f.len() > 0 || c != '+',
    ensures
        unsigned_digits(f.push(c)) == unsigned_digits(f).push(c),
{
    if f.len() > 0 && f[0] == '+' {
        assert(f.push(c).drop_first() =~= f.drop_first().push(c));
    }
}

/// Reads a number one character at a time.
struct NumberReader {
    len: usize,
    value: u32,
    bad: bool,
    over: bool,
    /// Characters read after an optional leading `+`.
    digits: usize,
}

impl NumberReader {
    /// The reader has read `f`, and holds what `parsed_unsigned(f, max)` needs.
    spec fn tracks(&self, f: Seq<char>, max: nat) -> bool {
        let d = unsigned_digits(f);
        &&& self.len == f.len()
        &&& self.digits == d.len()
        &&& self.bad <==> !all_digits(d)
        &&& !self.bad ==> (self.over <==> digits_value(d) > max)
        &&& (!self.bad && !self.over) ==> self.value == digits_value(d)
    }

    fn new(max: u32) -> (r: NumberReader)
        ensures
            r.tracks(Seq::<char>::empty(), max as nat),
    {
        NumberReader { len: 0, value: 0, bad: false, over: false, digits: 0 }
    }

    fn step(&mut self, c: char, max: u32, Ghost(f): Ghost<Seq<char>>)
        requires
            old(self).tracks(f, max as nat),
            max <= 0xffff,
            f.len() < usize::MAX,
        ensures
            final(self).tracks(f.push(c), max as nat),
    {
        let ghost d = unsigned_digits(f);
        if self.len == 0 && c == '+' {
            assert(unsigned_digits(f.push(c)) =~= Seq::<char>::empty());
        } else {
            proof {
                lemma_unsigned_digits_push(f, c);
                assert(unsigned_digits(f.push(c)).drop_last() == d);
            }
            if '0' <= c && c <= '9' {
                let ghost d2 = d.push(c);
                assert(d2.drop_last() == d);
                assert(digits_value(d2) == digits_value(d) * 10 + digit_value(c));
                if !self.bad && !self.over {
                    let v = self.value * 10 + (c as u32 - '0' as u32);
                    if v > max {
                        self.over = true;
                    } else {
                        self.value = v;
                    }
                }
                proof {
                    let d2 = d.push(c);
                    assert forall|i: int| 0 <= i < d2.len() && all_digits(d) implies #[trigger] is_digit(
                        d2[i],
                    ) by {
                        if i < d.len() {
                            assert(is_digit(d[i]));
                        }
                    }
                    if !all_digits(d) {
                        let k = choose|k: int| 0 <= k < d.len() && !is_digit(d[k]);
                        assert(d2[k] == d[k]);
                    }
                }
            } else {
                self.bad = true;
                proof {
                    let d2 = d.push(c);
                    assert(!is_digit(d2[d2.len() - 1]));
                }
            }
            self.digits = self.digits + 1;
        }
        self.len = self.len + 1;
    }

    fn finish(&self, max: u32, Ghost(f): Ghost<Seq<char>>) -> (r: Option<u32>)
        requires
            self.tracks(f, max as nat),
        ensures
            r matches Some(v) ==> parsed_unsigned(f, max as nat) == Some(v as nat),
            r is None ==> parsed_unsigned(f, max as nat) is None,
    {
        if !self.bad && !self.over && self.digits > 0 {
            Some(self.value)
        } else {
            None
        }
    }
}

/// Reads a whole string as a number no larger than `max`.
fn parse_unsigned(s: &str, max: u32) -> (r: Option<u32>)
    requires
        max <= 0xffff,
    ensures
        r matches Some(v) ==> parsed_unsigned(s@, max as nat) == Some(v as nat),
        r is None ==> parsed_unsigned(s@, max as nat) is None,
{
    let n = s.unicode_len();
    let mut reader = NumberReader::new(max);
    let mut i: usize = 0;
    while i < n
        invariant
            n == s@.len(),
            i <= n,
            max <= 0xffff,
            reader.tracks(s@.subrange(0, i as int), max as nat),
        decreases n - i,
    {
        let c = s.get_char(i);
        proof {
            assert(s@.subrange(0, i as int).push(c) =~= s@.subrange(0, i + 1));
        }
        reader.step(c, max, Ghost(s@.subrange(0, i as int)));
        i = i + 1;
    }
    proof {
        assert(s@.subrange(0, n as int) =~= s@);
    }
    reader.finish(max, Ghost(s@))
}

/// Reads a string as a `u8`.
pub fn parse_u8(s: &str) -> (r: Option<u8>)
    ensures
        r matches Some(v) ==> parsed_unsigned(s@, 0xff) == Some(v as nat),
        r is None ==> parsed_unsigned(s@, 0xff) is None,
{
    match parse_unsigned(s, 0xff) {
        Some(v) => Some(v as u8),
        None => None,
    }
}

/// The ports that a comma-separated list names, in order. Pieces that are
/// not a number in `0..=65535`, spaces included, are skipped.
pub fn parse_port_list(s: &str) -> (r: Vec<u16>)
    ensures
        r@ == port_list(s@),
{
    let n = s.unicode_len();
    let mut ports: Vec<u16> = Vec::new();
    let mut reader = NumberReader::new(0xffff);
    let mut i: usize = 0;
    while i < n
        invariant
            n == s@.len(),
            i <= n,
            fields(s@.subrange(0, i as int)).len() >= 1,
            ports@ == readable_ports(fields(s@.subrange(0, i as int)).drop_last()),
            reader.tracks(fields(s@.subrange(0, i as int)).last(), 0xffff),
            reader.len <= i,
        decreases n - i,
    {
        let ghost pre = s@.subrange(0, i as int);
        let ghost fs = fields(pre);
        let c = s.get_char(i);
        proof {
            assert(pre.push(c) =~= s@.subrange(0, i + 1));
            assert(s@.subrange(0, i + 1).drop_last() =~= pre);
            lemma_fields_nonempty(s@.subrange(0, i + 1));
        }
        if c == ',' {
            let read = reader.finish(0xffff, Ghost(fs.last()));
            if let Some(v) = read {
                ports.push(v as u16);
            }
            proof {
                let fs2 = fields(s@.subrange(0, i + 1));
                assert(fs2 == fs.push(Seq::<char>::empty()));
                assert(fs2.drop_last() =~= fs);
                assert(fs.drop_last() =~= fs.subrange(0, fs.len() - 1));
            }
            reader = NumberReader::new(0xffff);
        } else {
            reader.step(c, 0xffff, Ghost(fs.last()));
            proof {
                let fs2 = fields(s@.subrange(0, i + 1));
                assert(fs2 == fs.update(fs.len() - 1, fs.last().push(c)));
                assert(fs2.drop_last() =~= fs.drop_last());
            }
        }
        i = i + 1;
    }
    let ghost fs = fields(s@);
    proof {
        assert(s@.subrange(0, n as int) =~= s@);
    }
    let read = reader.finish(0xffff, Ghost(fs.last()));
    if let Some(v) = read {
        ports.push(v as u16);
    }
    proof {
        assert(fs.drop_last() =~= fs.subrange(0, fs.len() - 1));
    }
    ports
}

} // verus!
