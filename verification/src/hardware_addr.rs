//! Hardware (MAC) addresses.

use vstd::prelude::*;

use vstd::string::StringExecFns;

use crate::text::{find, hex, hex_pair, parse_hex_u8, position, read_number, NumberError};

verus! {

/// Why a text is not a hardware address.
#[derive(Clone, Copy, Debug, PartialEq, Eq, Structural)]
pub enum ParseError {
    /// The text has fewer than six octets.
    ExpectedOctet,
    /// An octet is not a hexadecimal number of eight bits.
    InvalidOctet(NumberError),
}

/// What `s` reads as, as `slots` octets in hexadecimal with a `:` between
/// each two. The octets are read from the left, and the last one reaches to
/// the end of the text.
pub open spec fn read_octets(s: Seq<char>, slots: nat) -> Result<Seq<u8>, ParseError>
    decreases slots,
{
    if slots == 0 {
        Ok(Seq::empty())
    } else {
        let p = position(s, ':');
        let field = if slots == 1 {
            s
        } else {
            s.take(p)
        };
        match read_number(field, 16, 0xff) {
            Err(e) => Err(ParseError::InvalidOctet(e)),
            Ok(v) => if slots == 1 {
                Ok(seq![v as u8])
            } else if p == s.len() {
                Err(ParseError::ExpectedOctet)
            } else {
                match read_octets(s.skip(p + 1), (slots - 1) as nat) {
                    Ok(rest) => Ok(seq![v as u8] + rest),
                    Err(e) => Err(e),
                }
            },
        }
    }
}

/// The result `rest` of reading the later octets, behind the octets `done`.
pub open spec fn after_octets(done: Seq<u8>, rest: Result<Seq<u8>, ParseError>) -> Result<
    Seq<u8>,
    ParseError,
> {
    match rest {
        Ok(more) => Ok(done + more),
        Err(e) => Err(e),
    }
}

/// The six octets of a network interface's hardware address.
#[derive(Clone, Copy, PartialEq, Eq, Hash, Debug)]
pub struct HardwareAddr(pub [u8; 6]);

impl View for HardwareAddr {
    type V = Seq<u8>;

    open spec fn view(&self) -> Seq<u8> {
        self.0@
    }
}

impl HardwareAddr {
    /// Makes an address of its six octets, first octet first.
    pub fn new(octets: [u8; 6]) -> (addr: HardwareAddr)
        ensures
            addr.0 == octets,
            addr@ == octets@,
    {
        HardwareAddr(octets)
    }

    /// The octets of the address, first octet first.
    pub fn octets(&self) -> (out: &[u8])
        ensures
            out@ == self@,
            out@.len() == 6,
    {
        self.0.as_slice()
    }

    /// Whether two addresses have the same octets.
    pub fn same(&self, other: &HardwareAddr) -> (r: bool)
        ensures
            r == (self@ == other@),
    {
        let mut i: usize = 0;
        while i < 6
            invariant
                i <= 6,
                forall|j: int| 0 <= j < i ==> self.0[j] == other.0[j],
            decreases 6 - i,
        {
            if self.0[i] != other.0[i] {
                return false;
            }
            i += 1;
        }
        assert(self@ =~= other@);
        true
    }
}

impl HardwareAddr {
    /// Reads an address written as six octets in hexadecimal with a `:`
    /// between each two, as in `aa:bb:cc:dd:ee:ff`.
    pub fn parse(s: &str) -> (r: Result<HardwareAddr, ParseError>)
        ensures
            r == read_address(s@),
            match read_octets(s@, 6) {
                Ok(octets) => r is Ok && r.unwrap()@ == octets,
                Err(e) => r == Err::<HardwareAddr, ParseError>(e),
            },
    {
        let n = s.unicode_len();
        let mut octets: [u8; 6] = [0u8, 0u8, 0u8, 0u8, 0u8, 0u8];
        let mut from: usize = 0;
        let mut k: usize = 0;
        proof {
            assert(s@.skip(0) =~= s@);
            let all = read_octets(s@, 6);
            if all is Ok {
                assert(octets@.take(0) + all.unwrap() =~= all.unwrap());
            }
        }
        while k < 6
            invariant
                n == s@.len(),
                k <= 6,
                from <= n,
                read_octets(s@, 6) == after_octets(
                    octets@.take(k as int),
                    read_octets(s@.skip(from as int), (6 - k) as nat),
                ),
            decreases 6 - k,
        {
            let rest = s.substring_char(from, n);
            let ghost tail = s@.skip(from as int);
            assert(rest@ =~= tail);
            let stop = find(rest, ':');
            proof {
                crate::text::lemma_position(tail, ':');
            }
            let (field, next): (&str, Option<usize>) = if k == 5 {
                (rest, None)
            } else {
                match stop {
                    Some(p) => (rest.substring_char(0, p), Some(from + p + 1)),
                    None => (rest, None),
                }
            };
            proof {
                if k != 5 && stop is None {
                    assert(tail.take(tail.len() as int) =~= tail);
                }
            }
            let value = match parse_hex_u8(field) {
                Ok(v) => v,
                Err(e) => {
                    return Err(ParseError::InvalidOctet(e));
                },
            };
            let ghost before = octets@.take(k as int);
            octets[k] = value;
            proof {
                assert(octets@.take(k + 1) =~= before + seq![value]);
            }
            match next {
                Some(at) => {
                    proof {
                        assert(s@.skip(at as int) =~= tail.skip(at - from));
                        let later = read_octets(s@.skip(at as int), (6 - k - 1) as nat);
                        if later is Ok {
                            assert(before + (seq![value] + later.unwrap()) =~= (before
                                + seq![value]) + later.unwrap());
                        }
                    }
                    from = at;
                },
                None => {
                    if k < 5 {
                        return Err(ParseError::ExpectedOctet);
                    }
                    proof {
                        assert(s@.skip(from as int).len() >= 0);
                        assert(read_octets(s@.skip(from as int), 0) == Ok::<
                            Seq<u8>,
                            ParseError,
                        >(Seq::empty()));
                        assert(before + seq![value] =~= (before + seq![value]) + Seq::<
                            u8,
                        >::empty());
                    }
                },
            }
            k += 1;
        }
        proof {
            assert(octets@.take(6) =~= octets@);
            assert(octets@ + Seq::<u8>::empty() =~= octets@);
            lemma_address_of(HardwareAddr(octets));
        }
        Ok(HardwareAddr(octets))
    }
}

/// The address whose octets are the first six of `octets`.
pub open spec fn address_of(octets: Seq<u8>) -> HardwareAddr {
    HardwareAddr([octets[0], octets[1], octets[2], octets[3], octets[4], octets[5]])
}

/// What `s` reads as, as a hardware address: six octets in hexadecimal with
/// a `:` between each two.
pub open spec fn read_address(s: Seq<char>) -> Result<HardwareAddr, ParseError> {
    match read_octets(s, 6) {
        Ok(octets) => Ok(address_of(octets)),
        Err(e) => Err(e),
    }
}

/// An address is the address of its own octets.
pub proof fn lemma_address_of(addr: HardwareAddr)
    ensures
        address_of(addr@) == addr,
        addr@.len() == 6,
{
    assert(address_of(addr@).0@ =~= addr.0@);
    assert(address_of(addr@).0 == addr.0);
}

/// The octets of the address of six octets are those six.
pub proof fn lemma_address_of_view(octets: Seq<u8>)
    requires
        octets.len() == 6,
    ensures
        address_of(octets)@ == octets,
{
    assert(address_of(octets)@ =~= octets);
}

/// The octets `octets` written out: each as two hexadecimal digits, with a
/// `:` between each two.
pub open spec fn octets_text(octets: Seq<u8>) -> Seq<char>
    decreases octets.len(),
{
    if octets.len() == 0 {
        Seq::empty()
    } else if octets.len() == 1 {
        hex_pair(octets[0])
    } else {
        octets_text(octets.drop_last()) + seq![':'] + hex_pair(octets.last())
    }
}

impl HardwareAddr {
    /// Writes the address out, as in `aa:bb:cc:dd:ee:ff`.
    pub fn to_text(&self) -> (s: String)
        ensures
            s@ == octets_text(self@),
            s@.len() == 17,
    {
        let mut s = hex(self.0[0]);
        assert(self@.take(1) =~= seq![self@[0]]);
        let mut i: usize = 1;
        while i < 6
            invariant
                1 <= i <= 6,
                s@ == octets_text(self@.take(i as int)),
                s@.len() == 3 * i - 1,
            decreases 6 - i,
        {
            proof {
                reveal_strlit(":");
                let more = self@.take(i + 1);
                assert(more.drop_last() =~= self@.take(i as int));
                assert(more.last() == self@[i as int]);
            }
            s.append(":");
            let pair = hex(self.0[i]);
            s.append(pair.as_str());
            i += 1;
        }
        assert(self@.take(6) =~= self@);
        s
    }
}

/// Octets written out start with the first octet, and the others follow
/// behind a `:`.
pub proof fn lemma_octets_text_starts(octets: Seq<u8>)
    requires
        octets.len() >= 2,
    ensures
        octets_text(octets) == hex_pair(octets[0]) + seq![':'] + octets_text(octets.skip(1)),
    decreases octets.len(),
{
    let front = octets.drop_last();
    let rest = octets.skip(1);
    if octets.len() == 2 {
        assert(front.len() == 1 && front[0] == octets[0]);
        assert(rest.len() == 1 && rest[0] == octets.last());
        assert(octets_text(front) == hex_pair(octets[0]));
        assert(octets_text(rest) == hex_pair(octets.last()));
        assert(octets_text(octets) == octets_text(front) + seq![':'] + hex_pair(octets.last()));
    } else {
        lemma_octets_text_starts(front);
        assert(rest.drop_last() =~= front.skip(1));
        assert(rest.last() == octets.last());
        assert(front[0] == octets[0]);
        assert(octets_text(octets) =~= hex_pair(octets[0]) + seq![':'] + octets_text(rest));
    }
}

/// Octets written out read back as themselves.
pub proof fn lemma_octets_read_back(octets: Seq<u8>)
    requires
        octets.len() >= 1,
    ensures
        read_octets(octets_text(octets), octets.len()) == Ok::<Seq<u8>, ParseError>(octets),
    decreases octets.len(),
{
    let text = octets_text(octets);
    let pair = hex_pair(octets[0]);
    crate::text::lemma_hex_reads_back(octets[0]);
    if octets.len() == 1 {
        assert(seq![octets[0]] =~= octets);
    } else {
        let rest = octets.skip(1);
        lemma_octets_text_starts(octets);
        lemma_octets_read_back(rest);
        assert(text[0] == pair[0] && text[1] == pair[1] && text[2] == ':');
        assert(pair.contains(pair[0]) && pair.contains(pair[1]));
        crate::text::lemma_position_is(text, ':', 2);
        assert(text.take(2) =~= pair);
        assert(text.skip(3) =~= octets_text(rest));
        assert(seq![octets[0]] + rest =~= octets);
    }
}

/// An address written out reads back as itself.
pub proof fn lemma_address_reads_back(addr: HardwareAddr)
    ensures
        read_address(octets_text(addr@)) == Ok::<HardwareAddr, ParseError>(addr),
{
    lemma_octets_read_back(addr@);
    lemma_address_of(addr);
}

} // verus!
