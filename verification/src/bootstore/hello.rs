//! The message with which each session begins.

use vstd::prelude::*;

verus! {

/// The message with which each side of a session begins. It stays the same for all time, whatever
/// the scheme.
#[derive(Debug, Clone, Copy, PartialEq, Eq, Structural)]
pub struct Hello {
    /// The version of the bootstore protocol itself.
    pub scheme: u32,
    /// The version of the protocol for the scheme. Each scheme numbers its versions on its own.
    pub version: u32,
    /// Reserved for future use.
    pub reserved: u64,
}

/// The number of bytes of the message.
pub const HELLO_LEN: usize = 16;

/// The number that big-endian bytes stand for.
pub open spec fn big_endian(bytes: Seq<u8>) -> nat
    decreases bytes.len(),
{
    if bytes.len() == 0 {
        0
    } else {
        big_endian(bytes.drop_last()) * 256 + bytes.last() as nat
    }
}

/// The bytes stand for the message: two numbers of 4 bytes, and one of 8, each of them big-endian.
pub open spec fn encodes(bytes: Seq<u8>, hello: Hello) -> bool {
    &&& bytes.len() == HELLO_LEN
    &&& big_endian(bytes.subrange(0, 4)) == hello.scheme
    &&& big_endian(bytes.subrange(4, 8)) == hello.version
    &&& big_endian(bytes.subrange(8, 16)) == hello.reserved
}

spec fn pow256(n: nat) -> nat
    decreases n,
{
    if n == 0 {
        1
    } else {
        pow256((n - 1) as nat) * 256
    }
}

proof fn big_endian_bound(bytes: Seq<u8>)
    ensures
        big_endian(bytes) < pow256(bytes.len()),
    decreases bytes.len(),
{
    if bytes.len() > 0 {
        big_endian_bound(bytes.drop_last());
    }
}

proof fn big_endian_is_injective(a: Seq<u8>, b: Seq<u8>)
    requires
        a.len() == b.len(),
        big_endian(a) == big_endian(b),
    ensures
        a == b,
    decreases a.len(),
{
    if a.len() > 0 {
        big_endian_is_injective(a.drop_last(), b.drop_last());
        assert(a =~= a.drop_last().push(a.last()));
        assert(b =~= b.drop_last().push(b.last()));
    }
    assert(a =~= b);
}

fn push_number(bytes: &mut Vec<u8>, n: u64, len: usize)
    requires
        n < pow256(len as nat),
        len <= 8,
    ensures
        final(bytes)@.len() == old(bytes)@.len() + len,
        final(bytes)@.take(old(bytes)@.len() as int) == old(bytes)@,
        big_endian(final(bytes)@.skip(old(bytes)@.len() as int)) == n,
    decreases len,
{
    let ghost before = bytes@;
    if len == 0 {
        assert(bytes@.skip(before.len() as int) =~= Seq::empty());
        assert(bytes@.take(before.len() as int) =~= before);
        assert(pow256(0) == 1);
    } else {
        push_number(bytes, n / 256, len - 1);
        let ghost middle = bytes@;
        bytes.push((n % 256) as u8);
        proof {
            assert(bytes@.take(before.len() as int) =~= middle.take(before.len() as int));
            assert(bytes@.skip(before.len() as int).drop_last() =~= middle.skip(
                before.len() as int,
            ));
        }
    }
}

fn number_at(bytes: &Vec<u8>, from: usize, len: usize) -> (n: u64)
    requires
        from + len <= bytes@.len(),
        len <= 8,
    ensures
        n == big_endian(bytes@.subrange(from as int, from + len)),
        n < pow256(len as nat),
{
    let mut n: u64 = 0;
    let mut i: usize = 0;
    proof {
        assert(bytes@.subrange(from as int, from as int) =~= Seq::empty());
    }
    while i < len
        invariant
            i <= len <= 8,
            from + len <= bytes.len(),
            n == big_endian(bytes@.subrange(from as int, from + i)),
        decreases len - i,
    {
        proof {
            let part = bytes@.subrange(from as int, from + i);
            let next = bytes@.subrange(from as int, from + i + 1);
            assert(next.drop_last() =~= part);
            big_endian_bound(part);
            assert(part.len() == i <= 7);
            pow256_small(i as nat);
            assert(n as nat * 256 + 255 < 0x1_0000_0000_0000_0000);
        }
        n = n * 256 + bytes[from + i] as u64;
        i = i + 1;
    }
    proof {
        big_endian_bound(bytes@.subrange(from as int, from + len));
    }
    n
}

proof fn pow256_small(n: nat)
    requires
        n <= 7,
    ensures
        pow256(n) <= 0x100_0000_0000_0000,
{
    reveal_with_fuel(pow256, 9);
}

impl Hello {
    /// The bytes of the message.
    pub fn to_bytes(&self) -> (bytes: Vec<u8>)
        ensures
            encodes(bytes@, *self),
    {
        proof {
            reveal_with_fuel(pow256, 9);
        }
        let mut bytes: Vec<u8> = Vec::new();
        push_number(&mut bytes, self.scheme as u64, 4);
        let ghost first = bytes@;
        push_number(&mut bytes, self.version as u64, 4);
        let ghost second = bytes@;
        push_number(&mut bytes, self.reserved, 8);
        proof {
            assert(bytes@.subrange(0, 4) =~= second.take(8).subrange(0, 4));
            assert(second.subrange(0, 4) =~= first.skip(0));
            assert(bytes@.subrange(0, 4) =~= first.skip(0)) by {
                assert(second.take(4) == first);
                assert(bytes@.take(8) == second);
            }
            assert(bytes@.subrange(4, 8) =~= second.skip(4)) by {
                assert(bytes@.take(8) == second);
            }
            assert(bytes@.subrange(8, 16) =~= bytes@.skip(8));
        }
        bytes
    }

    /// The message that bytes stand for. There is one for each sequence of the right length.
    pub fn from_bytes(bytes: &Vec<u8>) -> (r: Option<Hello>)
        ensures
            match r {
                Some(hello) => encodes(bytes@, hello),
                None => bytes@.len() != HELLO_LEN,
            },
    {
        if bytes.len() != HELLO_LEN {
            return None;
        }
        proof {
            reveal_with_fuel(pow256, 9);
        }
        let scheme = number_at(bytes, 0, 4);
        let version = number_at(bytes, 4, 4);
        let reserved = number_at(bytes, 8, 8);
        Some(Hello { scheme: scheme as u32, version: version as u32, reserved })
    }

    /// The version in which two sides talk: the lower of the two, where their schemes match.
    /// Otherwise they do not talk.
    pub fn agreed_version(&self, other: &Hello) -> (r: Option<u32>)
        ensures
            r == (if self.scheme != other.scheme {
                None
            } else if self.version <= other.version {
                Some(self.version)
            } else {
                Some(other.version)
            }),
            r == agreed(*self, *other),
    {
        if self.scheme != other.scheme {
            None
        } else if self.version <= other.version {
            Some(self.version)
        } else {
            Some(other.version)
        }
    }
}

/// The version in which two sides talk, if they do.
pub open spec fn agreed(a: Hello, b: Hello) -> Option<u32> {
    if a.scheme != b.scheme {
        None
    } else if a.version <= b.version {
        Some(a.version)
    } else {
        Some(b.version)
    }
}

/// Two sides talk if and only if their schemes are the same, and in a version that one of them has
/// and that is above that of neither. Both sides come to the same.
pub proof fn both_sides_agree(a: Hello, b: Hello)
    ensures
        agreed(a, b) is Some <==> a.scheme == b.scheme,
        agreed(a, b) matches Some(v) ==> v <= a.version && v <= b.version && (v == a.version || v
            == b.version),
        agreed(a, b) == agreed(b, a),
{
}

/// What was written is read: bytes stand for one message, and a message has one sequence of bytes.
pub proof fn hello_is_read_as_written(a: Seq<u8>, x: Hello, b: Seq<u8>, y: Hello)
    requires
        encodes(a, x),
        encodes(b, y),
    ensures
        a == b <==> x == y,
{
    if x == y {
        big_endian_is_injective(a.subrange(0, 4), b.subrange(0, 4));
        big_endian_is_injective(a.subrange(4, 8), b.subrange(4, 8));
        big_endian_is_injective(a.subrange(8, 16), b.subrange(8, 16));
        assert(a =~= a.subrange(0, 4) + a.subrange(4, 8) + a.subrange(8, 16));
        assert(b =~= b.subrange(0, 4) + b.subrange(4, 8) + b.subrange(8, 16));
    }
}

/// The bytes of a message, in the order in which they are sent: the highest byte of a number comes
/// first.
pub proof fn hello_is_big_endian(bytes: Seq<u8>, hello: Hello)
    requires
        encodes(bytes, hello),
    ensures
        bytes.len() == 16,
        hello.scheme == bytes[0] * 0x100_0000 + bytes[1] * 0x1_0000 + bytes[2] * 0x100 + bytes[3],
        hello.version == bytes[4] * 0x100_0000 + bytes[5] * 0x1_0000 + bytes[6] * 0x100 + bytes[7],
        hello.reserved == bytes[8] * 0x100_0000_0000_0000 + bytes[9] * 0x1_0000_0000_0000
            + bytes[10] * 0x100_0000_0000 + bytes[11] * 0x1_0000_0000 + bytes[12] * 0x100_0000
            + bytes[13] * 0x1_0000 + bytes[14] * 0x100 + bytes[15],
{
    four_bytes(bytes.subrange(0, 4));
    four_bytes(bytes.subrange(4, 8));
    let last = bytes.subrange(8, 16);
    four_bytes(last.take(4));
    let a = last.take(5);
    let b = last.take(6);
    let c = last.take(7);
    assert(a.drop_last() =~= last.take(4));
    assert(b.drop_last() =~= a);
    assert(c.drop_last() =~= b);
    assert(last.drop_last() =~= c);
    assert(big_endian(a) == big_endian(last.take(4)) * 256 + bytes[12]);
    assert(big_endian(b) == big_endian(a) * 256 + bytes[13]);
    assert(big_endian(c) == big_endian(b) * 256 + bytes[14]);
    assert(big_endian(last) == big_endian(c) * 256 + bytes[15]);
}

proof fn four_bytes(bytes: Seq<u8>)
    requires
        bytes.len() == 4,
    ensures
        big_endian(bytes) == bytes[0] * 0x100_0000 + bytes[1] * 0x1_0000 + bytes[2] * 0x100
            + bytes[3],
{
    let a = bytes.take(1);
    let b = bytes.take(2);
    let c = bytes.take(3);
    assert(big_endian(a.drop_last()) == 0);
    assert(big_endian(a) == bytes[0]);
    assert(b.drop_last() =~= a);
    assert(c.drop_last() =~= b);
    assert(bytes.drop_last() =~= c);
    assert(big_endian(b) == big_endian(a) * 256 + bytes[1]);
    assert(big_endian(c) == big_endian(b) * 256 + bytes[2]);
    assert(big_endian(bytes) == big_endian(c) * 256 + bytes[3]);
}

} // verus!
