use vstd::prelude::*;

verus! {

/// Value of an ASCII hexadecimal digit (either case), if it is one.
pub open spec fn hex_value(c: char) -> Option<u8> {
    if '0' <= c && c <= '9' {
        Some((c as u32 - '0' as u32) as u8)
    } else if 'a' <= c && c <= 'f' {
        Some((c as u32 - 'a' as u32 + 10) as u8)
    } else if 'A' <= c && c <= 'F' {
        Some((c as u32 - 'A' as u32 + 10) as u8)
    } else {
        None
    }
}

/// ASCII code of the lower-case hexadecimal digit for a value below sixteen.
pub open spec fn hex_digit(n: u8) -> u8 {
    if n < 10 {
        (48 + n) as u8
    } else {
        (87 + n) as u8
    }
}

/// The bytes written by a string of `2 * n` hexadecimal digits, if it is one.
pub open spec fn hex_decode(s: Seq<char>) -> Option<Seq<u8>>
    decreases s.len(),
{
    if s.len() == 0 {
        Some(Seq::empty())
    } else if s.len() < 2 {
        None
    } else {
        match (hex_value(s[0]), hex_value(s[1]), hex_decode(s.subrange(2, s.len() as int))) {
            (Some(hi), Some(lo), Some(rest)) => Some(seq![(hi * 16 + lo) as u8].add(rest)),
            _ => None,
        }
    }
}

/// Lower-case hexadecimal text of a byte sequence, as ASCII codes, two per byte.
pub open spec fn hex_ascii(b: Seq<u8>) -> Seq<u8>
    decreases b.len(),
{
    if b.len() == 0 {
        Seq::empty()
    } else {
        hex_ascii(b.drop_last()).add(seq![hex_digit(b.last() / 16), hex_digit(b.last() % 16)])
    }
}

/// Appends the lower-case hexadecimal text of `b` to `out`.
pub fn push_hex(out: &mut Vec<u8>, b: &[u8])
    ensures
        final(out)@ == old(out)@.add(hex_ascii(b@)),
{
    let mut i: usize = 0;
    while i < b.len()
        invariant
            i <= b@.len(),
            out@ == old(out)@.add(hex_ascii(b@.subrange(0, i as int))),
        decreases b@.len() - i,
    {
        let x = b[i];
        let hi: u8 = x / 16;
        let lo: u8 = x % 16;
        let hc: u8 = if hi < 10 { 48 + hi } else { 87 + hi };
        let lc: u8 = if lo < 10 { 48 + lo } else { 87 + lo };
        out.push(hc);
        out.push(lc);
        proof {
            let pre = b@.subrange(0, i as int);
            let next = b@.subrange(0, i + 1);
            assert(next.drop_last() =~= pre);
            assert(old(out)@.add(hex_ascii(next)) =~= old(out)@.add(hex_ascii(pre)).push(hc).push(lc));
        }
        i = i + 1;
    }
    assert(b@.subrange(0, b@.len() as int) =~= b@);
}

/// The content address of a record: 32 bytes, written in text as 64 hex digits.
#[derive(Clone, Copy, Debug, Default, PartialEq, Eq, Hash)]
pub struct EventId {
    pub(crate) inner: [u8; 32],
}

impl View for EventId {
    type V = Seq<u8>;

    closed spec fn view(&self) -> Seq<u8> {
        self.inner@
    }
}

impl EventId {
    pub fn from_bytes(b: [u8; 32]) -> (r: EventId)
        ensures
            r@ == b@,
    {
        EventId { inner: b }
    }

    pub fn as_bytes(&self) -> (r: &[u8; 32])
        ensures
            r@ == self@,
    {
        &self.inner
    }

    pub fn into_bytes(&self) -> (r: [u8; 32])
        ensures
            r@ == self@,
    {
        self.inner
    }

    /// Whether two ids are the same 32 bytes.
    pub fn same(&self, other: &EventId) -> (r: bool)
        ensures
            r == (self@ == other@),
    {
        let mut i: usize = 0;
        while i < 32
            invariant
                0 <= i <= 32,
                self@.len() == 32,
                other@.len() == 32,
                forall|j: int| 0 <= j < i ==> self@[j] == other@[j],
            decreases 32 - i,
        {
            if self.inner[i] != other.inner[i] {
                return false;
            }
            i = i + 1;
        }
        assert(self@ =~= other@);
        true
    }

    /// Reads an id from 64 hexadecimal digits.
    pub fn from_hex(s: &str) -> (r: Option<EventId>)
        ensures
            r is Some <==> (hex_decode(s@) is Some && hex_decode(s@).unwrap().len() == 32),
            r is Some ==> hex_decode(s@) == Some(r.unwrap()@),
    {
        match decode_hex(s) {
            Some(v) => {
                if v.len() != 32 {
                    return None;
                }
                let mut inner: [u8; 32] = [0u8; 32];
                let mut i: usize = 0;
                while i < 32
                    invariant
                        0 <= i <= 32,
                        v@.len() == 32,
                        inner@.len() == 32,
                        forall|j: int| 0 <= j < i ==> inner@[j] == v@[j],
                    decreases 32 - i,
                {
                    inner[i] = v[i];
                    i = i + 1;
                }
                assert(inner@ =~= v@);
                Some(EventId { inner })
            },
            None => None,
        }
    }
}

proof fn lemma_hex_decode_step(s: Seq<char>, i: int)
    requires
        0 <= i,
        i + 2 <= s.len(),
    ensures
        s.subrange(i, s.len() as int).subrange(2, s.len() - i) == s.subrange(i + 2, s.len() as int),
{
    assert(s.subrange(i, s.len() as int).subrange(2, s.len() - i) =~= s.subrange(i + 2, s.len() as int));
}

/// Decodes a string of hexadecimal digit pairs into bytes.
pub fn decode_hex(s: &str) -> (r: Option<Vec<u8>>)
    ensures
        match r {
            Some(v) => hex_decode(s@) == Some(v@),
            None => hex_decode(s@) is None,
        },
{
    let n = s.unicode_len();
    if n % 2 != 0 {
        proof { lemma_odd_len_rejected(s@); }
        return None;
    }
    let mut out: Vec<u8> = Vec::new();
    let mut i: usize = 0;
    assert(s@.subrange(0, n as int) =~= s@);
    while i < n
        invariant
            n == s@.len(),
            n % 2 == 0,
            i % 2 == 0,
            i <= n,
            hex_decode(s@) == match hex_decode(s@.subrange(i as int, n as int)) {
                Some(rest) => Some(out@.add(rest)),
                None => None::<Seq<u8>>,
            },
        decreases n - i,
    {
        let hi_c = s.get_char(i);
        let lo_c = s.get_char(i + 1);
        proof {
            lemma_hex_decode_step(s@, i as int);
        }
        match (hex_val(hi_c), hex_val(lo_c)) {
            (Some(hi), Some(lo)) => {
                let b: u8 = hi * 16 + lo;
                proof {
                    let tail = s@.subrange(i + 2, n as int);
                    match hex_decode(tail) {
                        Some(rest) => {
                            assert(out@.add(seq![b].add(rest)) =~= out@.push(b).add(rest));
                        },
                        None => {},
                    }
                }
                out.push(b);
                i = i + 2;
            },
            _ => {
                return None;
            },
        }
    }
    assert(out@.add(Seq::<u8>::empty()) =~= out@);
    Some(out)
}

proof fn lemma_odd_len_rejected(s: Seq<char>)
    requires
        s.len() % 2 == 1,
    ensures
        hex_decode(s) is None,
    decreases s.len(),
{
    if s.len() >= 2 {
        lemma_odd_len_rejected(s.subrange(2, s.len() as int));
    }
}

/// Value of one hexadecimal digit.
pub fn hex_val(c: char) -> (r: Option<u8>)
    ensures
        r == hex_value(c),
        r is Some ==> r.unwrap() < 16,
{
    if '0' <= c && c <= '9' {
        Some((c as u32 - '0' as u32) as u8)
    } else if 'a' <= c && c <= 'f' {
        Some((c as u32 - 'a' as u32 + 10) as u8)
    } else if 'A' <= c && c <= 'F' {
        Some((c as u32 - 'A' as u32 + 10) as u8)
    } else {
        None
    }
}

} // verus!
