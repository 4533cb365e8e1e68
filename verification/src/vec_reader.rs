//! A reader over bytes held in memory, handed out front first.
use vstd::prelude::*;

verus! {

/// The bytes not read yet.
pub struct VecReader(pub Vec<u8>);

impl View for VecReader {
    type V = Seq<u8>;

    open spec fn view(&self) -> Seq<u8> {
        self.0@
    }
}

/// How many bytes one read hands out: as many as fit and are there.
pub open spec fn read_size(room: nat, available: nat) -> nat {
    if room < available {
        room
    } else {
        available
    }
}

/// The total room of a sequence of buffers.
pub open spec fn total_room(rooms: Seq<nat>) -> nat
    decreases rooms.len(),
{
    if rooms.len() == 0 {
        0
    } else {
        total_room(rooms.drop_last()) + rooms.last()
    }
}

/// What successive reads into buffers of room `rooms` hand out from `data`,
/// one after the other, and what is left unread after them.
pub open spec fn read_chunks(data: Seq<u8>, rooms: Seq<nat>) -> (Seq<u8>, Seq<u8>)
    decreases rooms.len(),
{
    if rooms.len() == 0 {
        (Seq::empty(), data)
    } else {
        let (out, rest) = read_chunks(data, rooms.drop_last());
        let n = read_size(rooms.last(), rest.len());
        (out + rest.take(n as int), rest.skip(n as int))
    }
}

/// Reading a `VecReader` again and again gives back its bytes in order,
/// with none lost or repeated: what the reads handed out followed by what
/// is left is all of it, and the reads hand out as many bytes as there was
/// room for, or all of them; reading on with room to spare gives them all.
pub proof fn law_reads_give_back_all(data: Seq<u8>, rooms: Seq<nat>)
    ensures
        read_chunks(data, rooms).0 + read_chunks(data, rooms).1 == data,
        read_chunks(data, rooms).0.len() == if total_room(rooms) < data.len() {
            total_room(rooms)
        } else {
            data.len()
        },
        total_room(rooms) >= data.len() ==> read_chunks(data, rooms).0 == data,
    decreases rooms.len(),
{
    if rooms.len() > 0 {
        law_reads_give_back_all(data, rooms.drop_last());
        let (out, rest) = read_chunks(data, rooms.drop_last());
        let n = read_size(rooms.last(), rest.len());
        assert(out + rest.take(n as int) + rest.skip(n as int) =~= out + rest);
    }
    if total_room(rooms) >= data.len() {
        assert(read_chunks(data, rooms).0 =~= data) by {
            assert(read_chunks(data, rooms).1.len() == 0);
        }
    }
}

/// With room in the buffer, a read gives nothing exactly when nothing is
/// left to read.
pub proof fn law_empty_read_means_done(room: nat, available: nat)
    requires
        room > 0,
    ensures
        read_size(room, available) == 0 <==> available == 0,
{
}

/// Reads into buffers that each have room for at least one byte give at
/// least one byte each while bytes are left: after `n` such reads, at least
/// `min(n, len)` bytes have been handed out, so `len` reads hand out
/// everything and the read after them gives nothing.
pub proof fn law_reads_make_progress(data: Seq<u8>, rooms: Seq<nat>)
    requires
        forall|i: int| 0 <= i < rooms.len() ==> rooms[i] >= 1,
    ensures
        read_chunks(data, rooms).0.len() >= if rooms.len() < data.len() {
            rooms.len() as int
        } else {
            data.len() as int
        },
        rooms.len() >= data.len() ==> read_chunks(data, rooms).1.len() == 0,
    decreases rooms.len(),
{
    law_reads_give_back_all(data, rooms);
    if rooms.len() > 0 {
        let front = rooms.drop_last();
        assert forall|i: int| 0 <= i < front.len() implies front[i] >= 1 by {
            assert(front[i] == rooms[i]);
        }
        law_reads_make_progress(data, front);
        law_reads_give_back_all(data, front);
        assert(rooms.last() >= 1);
    }
}

impl std::io::Read for VecReader {
    /// Copies the front of the unread bytes into `buf`, as many as fit, and
    /// drops them from the reader. Never fails.
    fn read(&mut self, buf: &mut [u8]) -> (r: std::io::Result<usize>)
        ensures
            ({
                let n = read_size(old(buf)@.len(), old(self)@.len());
                &&& r matches Ok(size) && size == n
                &&& final(buf)@ == old(self)@.take(n as int) + old(buf)@.skip(n as int)
                &&& final(self)@ == old(self)@.skip(n as int)
            }),
    {
        let len = buf.len();
        let available = self.0.len();
        let size = if len < available {
            len
        } else {
            available
        };
        let mut i: usize = 0;
        while i < size
            invariant
                size == read_size(old(buf)@.len(), old(self)@.len()),
                size <= buf@.len(),
                buf@.len() == old(buf)@.len(),
                self@ == old(self)@,
                i <= size,
                forall|k: int| 0 <= k < i ==> buf@[k] == old(self)@[k],
                forall|k: int| size <= k < buf@.len() ==> buf@[k] == old(buf)@[k],
            decreases size - i,
        {
            buf[i] = self.0[i];
            i = i + 1;
        }
        let rest = self.0.split_off(size);
        self.0 = rest;
        assert(buf@ =~= old(self)@.take(size as int) + old(buf)@.skip(size as int));
        assert(self@ =~= old(self)@.skip(size as int));
        Ok(size)
    }
}

} // verus!
