use vstd::prelude::*;
use vstd::string::StringSliceAdditionalSpecFns;

verus! {

/// I/O port of the first serial line.
pub const COM1: u16 = 0x3F8;

/// What the serial line carries for byte `b`: a newline as carriage return and line feed,
/// anything else as itself.
pub open spec fn line_bytes(b: u8) -> Seq<u8> {
    if b == 10 {
        seq![13u8, 10u8]
    } else {
        seq![b]
    }
}

/// What the serial line carries for text `s`: printable ASCII and newlines as themselves
/// (a newline as carriage return and line feed), any other byte as 0xFE.
pub open spec fn serial_text(s: Seq<u8>) -> Seq<u8>
    decreases s.len(),
{
    if s.len() == 0 {
        seq![]
    } else {
        let b = s.last();
        let shown = if (0x20 <= b <= 0x7e) || b == 10 { b } else { 0xFEu8 };
        serial_text(s.drop_last()) + line_bytes(shown)
    }
}

/// The debug serial line: the bytes it has been given and that still have to go out on
/// the port, oldest first.
pub struct SerialDebug {
    pub out: Vec<u8>,
}

impl SerialDebug {
    /// A line with nothing pending.
    pub fn new() -> (s: SerialDebug)
        ensures
            s.out@ == Seq::<u8>::empty(),
    {
        SerialDebug { out: Vec::new() }
    }

    /// Sends one byte, a newline as carriage return and line feed.
    pub fn write_byte(&mut self, byte: u8)
        ensures
            final(self).out@ == old(self).out@ + line_bytes(byte),
    {
        if byte == 10 {
            self.out.push(13);
            self.out.push(10);
        } else {
            self.out.push(byte);
        }
        proof {
            assert(self.out@ =~= old(self).out@ + line_bytes(byte));
        }
    }

    /// Sends text, replacing bytes that are neither printable ASCII nor newlines by 0xFE.
    pub fn write_string(&mut self, s: &str)
        ensures
            final(self).out@ == old(self).out@ + serial_text(s.spec_bytes()),
    {
        self.write_bytes(s.as_bytes());
    }

    /// Sends keyboard text the same way as `write_string`.
    pub fn write_kb(&mut self, s: &str)
        ensures
            final(self).out@ == old(self).out@ + serial_text(s.spec_bytes()),
    {
        self.write_bytes(s.as_bytes());
    }

    fn write_bytes(&mut self, bytes: &[u8])
        ensures
            final(self).out@ == old(self).out@ + serial_text(bytes@),
    {
        let n = bytes.len();
        let mut i: usize = 0;
        while i < n
            invariant
                n == bytes@.len(),
                i <= n,
                self.out@ == old(self).out@ + serial_text(bytes@.subrange(0, i as int)),
            decreases n - i,
        {
            let byte = bytes[i];
            let shown = if (0x20 <= byte && byte <= 0x7e) || byte == 10 { byte } else { 0xfe };
            self.write_byte(shown);
            proof {
                let pre = bytes@.subrange(0, i + 1);
                assert(pre.drop_last() =~= bytes@.subrange(0, i as int));
                assert(pre.last() == byte);
                assert(self.out@ =~= old(self).out@ + serial_text(pre));
            }
            i += 1;
        }
        proof {
            assert(bytes@.subrange(0, n as int) =~= bytes@);
        }
    }
}

} // verus!
