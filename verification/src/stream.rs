use vstd::prelude::*;

verus! {

/// An in-memory view of the bytes a transport has delivered: a buffer and a
/// cursor. All packet parsing consumes from one of these; running out of
/// bytes stands for the peer closing or the transport timing out.
pub struct ByteStream {
    pub data: Vec<u8>,
    pub pos: usize,
}

impl ByteStream {
    /// The cursor never passes the end of the buffer.
    pub open spec fn wf(&self) -> bool {
        self.pos <= self.data@.len()
    }

    /// The bytes not yet consumed.
    pub open spec fn remaining(&self) -> Seq<u8> {
        self.data@.skip(self.pos as int)
    }

    pub fn new(data: Vec<u8>) -> (s: Self)
        ensures
            s.wf(),
            s.remaining() == data@,
            s.data@ == data@,
            s.pos == 0,
    {
        let s = ByteStream { data, pos: 0 };
        proof {
            assert(s.remaining() =~= s.data@);
        }
        s
    }

    /// Consumes and returns the next byte, or nothing at the end of the
    /// buffer.
    pub fn read_u8(&mut self) -> (r: Option<u8>)
        requires
            old(self).wf(),
        ensures
            final(self).wf(),
            final(self).data@ == old(self).data@,
            match r {
                Some(b) => {
                    &&& old(self).remaining().len() >= 1
                    &&& b == old(self).remaining()[0]
                    &&& final(self).pos == old(self).pos + 1
                },
                None => old(self).remaining().len() == 0 && final(self).pos == old(self).pos,
            },
    {
        if self.pos < self.data.len() {
            let b = self.data[self.pos];
            self.pos = self.pos + 1;
            Some(b)
        } else {
            None
        }
    }

    /// Consumes exactly `n` bytes and returns them, or nothing (and consumes
    /// nothing) when fewer than `n` are left.
    pub fn read_exact(&mut self, n: usize) -> (r: Option<Vec<u8>>)
        requires
            old(self).wf(),
        ensures
            final(self).wf(),
            final(self).data@ == old(self).data@,
            match r {
                Some(v) => {
                    &&& old(self).remaining().len() >= n
                    &&& v@ == old(self).remaining().take(n as int)
                    &&& v@.len() == n
                    &&& final(self).pos == old(self).pos + n
                },
                None => old(self).remaining().len() < n && final(self).pos == old(self).pos,
            },
    {
        if n > self.data.len() - self.pos {
            return None;
        }
        let piece = vstd::slice::slice_subrange(self.data.as_slice(), self.pos, self.pos + n);
        let v = vstd::slice::slice_to_vec(piece);
        self.pos = self.pos + n;
        proof {
            assert(v@ =~= old(self).remaining().take(n as int));
        }
        Some(v)
    }

    /// Consumes two bytes and returns them as a big-endian u16, or nothing
    /// (and consumes nothing) when fewer than two are left.
    pub fn read_u16_be(&mut self) -> (r: Option<u16>)
        requires
            old(self).wf(),
        ensures
            final(self).wf(),
            final(self).data@ == old(self).data@,
            match r {
                Some(v) => {
                    &&& old(self).remaining().len() >= 2
                    &&& v == be_u16(old(self).remaining()[0], old(self).remaining()[1])
                    &&& final(self).pos == old(self).pos + 2
                },
                None => old(self).remaining().len() < 2 && final(self).pos == old(self).pos,
            },
    {
        if self.data.len() - self.pos < 2 {
            return None;
        }
        let hi = self.data[self.pos];
        let lo = self.data[self.pos + 1];
        self.pos = self.pos + 2;
        Some((hi as u16) * 256 + (lo as u16))
    }
}

/// The value of two bytes read big-endian.
pub open spec fn be_u16(hi: u8, lo: u8) -> u16 {
    (hi * 256 + lo) as u16
}

} // verus!
