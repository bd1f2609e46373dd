//! A source of text that is delivered in chunks of bounded size.

use vstd::prelude::*;

verus! {

/// The number of characters that a chunk can hold.
pub const BUFFER_SIZE: usize = 4096;

/// One chunk of source text: the first `count` cells of `buffer` hold its characters,
/// and `read_index` is where its reader stands.
#[derive(Debug)]
pub struct StreamBuffer {
    pub buffer: [char; BUFFER_SIZE],
    /// The index of the next character to be read.
    pub read_index: usize,
    /// The number of characters in the buffer.
    pub count: usize,
}

impl StreamBuffer {
    /// Whether the counters lie within the buffer.
    pub open spec fn wf(&self) -> bool {
        self.read_index <= self.count <= BUFFER_SIZE
    }

    /// The characters of the chunk.
    pub open spec fn content(&self) -> Seq<char> {
        self.buffer@.take(self.count as int)
    }

    /// Whether every cell behind the characters of the chunk holds the null character.
    pub open spec fn padded(&self) -> bool {
        forall|k: int| self.count <= k < BUFFER_SIZE ==> #[trigger] self.buffer@[k] == '\0'
    }
}

/// The number of characters of the next chunk, where `unread` characters are left.
pub open spec fn chunk_len(unread: nat) -> nat {
    if unread <= BUFFER_SIZE {
        unread
    } else {
        BUFFER_SIZE as nat
    }
}

/// A source of text that hands out its characters chunk by chunk.
pub trait StringStream {
    /// The characters that have not been delivered yet.
    spec fn unread(&self) -> Seq<char>;

    /// Delivers the next chunk: as many of the unread characters as a chunk holds, in
    /// a buffer of its own, with its reader at the start. Once nothing is unread the
    /// answer is `None`, now and ever after; no chunk is empty.
    fn next_buffer(&mut self) -> (chunk: Option<StreamBuffer>)
        ensures
            match chunk {
                Some(buffer) => {
                    &&& buffer.wf()
                    &&& buffer.padded()
                    &&& buffer.read_index == 0
                    &&& 0 < buffer.count == chunk_len(old(self).unread().len())
                    &&& buffer.content() == old(self).unread().take(buffer.count as int)
                    &&& final(self).unread() == old(self).unread().skip(buffer.count as int)
                },
                None => old(self).unread().len() == 0 && final(self).unread().len() == 0,
            },
    ;

    /// Makes `string` the text that is delivered from now on.
    fn open_with_string(&mut self, string: String)
        ensures
            final(self).unread() == string@,
    ;
}

/// A stream over the characters of a string.
#[derive(Debug)]
pub struct DoubleBufferStringStream {
    chars: Vec<char>,
    consume_index: usize,
}

impl DoubleBufferStringStream {
    /// A stream with nothing to deliver.
    pub fn new() -> (stream: DoubleBufferStringStream)
        ensures
            stream.unread().len() == 0,
    {
        DoubleBufferStringStream { chars: Vec::new(), consume_index: 0 }
    }

    /// A stream that delivers `string`.
    pub fn new_with_string(string: String) -> (stream: DoubleBufferStringStream)
        ensures
            stream.unread() == string@,
    {
        let mut stream = DoubleBufferStringStream::new();
        stream.open_with_string(string);
        stream
    }
}

impl StringStream for DoubleBufferStringStream {
    closed spec fn unread(&self) -> Seq<char> {
        if self.consume_index <= self.chars@.len() {
            self.chars@.skip(self.consume_index as int)
        } else {
            Seq::empty()
        }
    }

    fn next_buffer(&mut self) -> (chunk: Option<StreamBuffer>) {
        if self.consume_index >= self.chars.len() {
            return None;
        }
        let start: usize = self.consume_index;
        let left: usize = self.chars.len() - start;
        let count: usize = if left <= BUFFER_SIZE {
            left
        } else {
            BUFFER_SIZE
        };
        let mut buffer: [char; BUFFER_SIZE] = ['\0'; BUFFER_SIZE];
        let mut i: usize = 0;
        while i < count
            invariant
                i <= count <= BUFFER_SIZE,
                start + count <= self.chars@.len() <= usize::MAX,
                forall|k: int| 0 <= k < i ==> buffer@[k] == self.chars@[start + k],
                forall|k: int| i <= k < BUFFER_SIZE ==> buffer@[k] == '\0',
            decreases count - i,
        {
            buffer[i] = self.chars[start + i];
            i += 1;
        }
        self.consume_index = start + count;
        let chunk = StreamBuffer { buffer, read_index: 0, count };
        Some(chunk)
    }

    fn open_with_string(&mut self, string: String) {
        let mut chars: Vec<char> = Vec::new();
        for c in it: string.as_str().chars()
            invariant
                chars@ == it.seq().take(it.index() as int),
        {
            chars.push(c);
        }
        self.chars = chars;
        self.consume_index = 0;
    }
}

} // verus!
