//! Files kept in cloud storage: the byte stream of a download is cut into
//! lines at each newline byte, and only finished lines are handed on.
use vstd::prelude::*;

verus! {

/// Access to the files of the bucket; the downloads themselves are the
/// program's I/O.
pub struct Storage;

/// The newline byte.
pub open spec fn newline() -> u8 {
    10u8
}

/// The lines, each followed by a newline byte, one after the other.
pub open spec fn join_lines(lines: Seq<Seq<u8>>) -> Seq<u8>
    decreases lines.len(),
{
    if lines.len() == 0 {
        Seq::empty()
    } else {
        join_lines(lines.drop_last()) + lines.last() + seq![newline()]
    }
}

/// `lines` are the finished lines of `bytes`: no line holds a newline, the
/// lines with their newlines make up the front of `bytes`, and what is left
/// after them holds no newline.
pub open spec fn are_complete_lines_of(lines: Seq<Seq<u8>>, bytes: Seq<u8>) -> bool {
    let joined = join_lines(lines);
    &&& forall|i: int| 0 <= i < lines.len() ==> !(#[trigger] lines[i]).contains(newline())
    &&& joined.len() <= bytes.len()
    &&& bytes.subrange(0, joined.len() as int) == joined
    &&& !bytes.subrange(joined.len() as int, bytes.len() as int).contains(newline())
}

/// Collects bytes until a newline comes and then hands out the line.
pub struct LineSplitter {
    pending: Vec<u8>,
}

impl View for LineSplitter {
    type V = Seq<u8>;

    /// The bytes of the unfinished line.
    closed spec fn view(&self) -> Seq<u8> {
        self.pending@
    }
}

impl LineSplitter {
    /// A splitter with nothing pending.
    pub fn new() -> (r: LineSplitter)
        ensures
            r@ == Seq::<u8>::empty(),
    {
        LineSplitter { pending: Vec::new() }
    }

    /// Takes one byte: a newline finishes the pending line, which is handed
    /// out without the newline; any other byte is added to it.
    pub fn push(&mut self, byte: u8) -> (r: Option<Vec<u8>>)
        ensures
            byte == newline() ==> (r matches Some(line) && line@ == old(self)@),
            byte == newline() ==> final(self)@ == Seq::<u8>::empty(),
            byte != newline() ==> r is None && final(self)@ == old(self)@.push(byte),
    {
        if byte == 10u8 {
            let mut line = Vec::new();
            std::mem::swap(&mut line, &mut self.pending);
            Some(line)
        } else {
            self.pending.push(byte);
            None
        }
    }

    /// The bytes of the unfinished line.
    pub fn pending(&self) -> (r: &[u8])
        ensures
            r@ == self@,
    {
        self.pending.as_slice()
    }
}

proof fn lemma_join_push(lines: Seq<Seq<u8>>, line: Seq<u8>)
    ensures
        join_lines(lines.push(line)) == join_lines(lines) + line + seq![newline()],
{
    assert(lines.push(line).drop_last() =~= lines);
}

/// The byte lines held by a vector of vectors.
pub open spec fn lines_view(v: Seq<Vec<u8>>) -> Seq<Seq<u8>> {
    v.map_values(|l: Vec<u8>| l@)
}

/// What a `LineSplitter` that starts empty has handed out, and what it
/// holds pending, once it has taken `bytes` one after the other.
pub open spec fn splitter_run(bytes: Seq<u8>) -> (Seq<Seq<u8>>, Seq<u8>)
    decreases bytes.len(),
{
    if bytes.len() == 0 {
        (Seq::empty(), Seq::empty())
    } else {
        let (lines, pending) = splitter_run(bytes.drop_last());
        if bytes.last() == newline() {
            (lines.push(pending), Seq::empty())
        } else {
            (lines, pending.push(bytes.last()))
        }
    }
}

/// Taking a download one byte at a time hands out exactly its finished
/// lines, and the lines handed out, each with its newline, followed by what
/// is pending, give back every byte.
pub proof fn law_streaming_gives_complete_lines(bytes: Seq<u8>)
    ensures
        are_complete_lines_of(splitter_run(bytes).0, bytes),
        join_lines(splitter_run(bytes).0) + splitter_run(bytes).1 == bytes,
        !splitter_run(bytes).1.contains(newline()),
    decreases bytes.len(),
{
    if bytes.len() > 0 {
        let prev = bytes.drop_last();
        law_streaming_gives_complete_lines(prev);
        let (lines, pending) = splitter_run(prev);
        let b = bytes.last();
        assert(bytes =~= prev.push(b));
        if b == newline() {
            lemma_join_push(lines, pending);
            assert forall|i: int| 0 <= i < lines.push(pending).len() implies !(
            #[trigger] lines.push(pending)[i]).contains(newline()) by {
                if i < lines.len() {
                    assert(lines.push(pending)[i] == lines[i]);
                }
            }
            assert(join_lines(lines.push(pending)) + Seq::<u8>::empty() =~= bytes);
        } else {
            assert(join_lines(lines) + pending.push(b) =~= bytes);
            assert forall|k: int| 0 <= k < pending.push(b).len() implies pending.push(b)[k]
                != newline() by {
                if k < pending.len() {
                    assert(pending.push(b)[k] == pending[k]);
                }
            }
        }
        let (l2, p2) = splitter_run(bytes);
        let joined = join_lines(l2);
        assert(bytes.subrange(0, joined.len() as int) =~= joined);
        assert(bytes.subrange(joined.len() as int, bytes.len() as int) =~= p2);
    } else {
        assert(bytes.subrange(0, 0) =~= Seq::<u8>::empty());
    }
}

impl Storage {
    /// The finished lines of `bytes`, in order, without their newlines; the
    /// bytes after the last newline are not a line yet. They are the lines a
    /// `LineSplitter` hands out when it takes `bytes` one after the other.
    pub fn complete_lines(bytes: &[u8]) -> (r: Vec<Vec<u8>>)
        ensures
            lines_view(r@) == splitter_run(bytes@).0,
            are_complete_lines_of(lines_view(r@), bytes@),
    {
        let mut splitter = LineSplitter::new();
        let mut lines: Vec<Vec<u8>> = Vec::new();
        let n = bytes.len();
        let mut i: usize = 0;
        assert(lines_view(lines@) =~= Seq::<Seq<u8>>::empty());
        assert(bytes@.subrange(0, 0) =~= Seq::<u8>::empty());
        while i < n
            invariant
                n == bytes@.len(),
                i <= n,
                (lines_view(lines@), splitter@) == splitter_run(bytes@.subrange(0, i as int)),
            decreases n - i,
        {
            let b = bytes[i];
            let ghost before = lines@;
            proof {
                assert(bytes@.subrange(0, i + 1).drop_last() =~= bytes@.subrange(0, i as int));
            }
            match splitter.push(b) {
                Some(line) => {
                    lines.push(line);
                    assert(lines_view(lines@) =~= lines_view(before).push(line@));
                },
                None => {},
            }
            i = i + 1;
        }
        proof {
            assert(bytes@.subrange(0, n as int) =~= bytes@);
            law_streaming_gives_complete_lines(bytes@);
        }
        lines
    }
}

} // verus!
