use vstd::prelude::*;
use vstd::bytes::{
    lemma_auto_spec_u32_to_from_le_bytes, spec_u32_from_le_bytes, spec_u32_to_le_bytes,
    u32_to_le_bytes,
};

verus! {

/// Byte boundary to which every message, schema and page in an IPC stream is padded.
pub const ALIGNMENT: usize = 64;

/// Largest number of zero bytes a single padding write may need.
pub const MAX_PADDING: usize = 512;

/// Size of the little-endian length word that precedes every framed message.
pub const LENGTH_PREFIX_SIZE: usize = 4;

/// Number of zero bytes that bring `len` up to the next multiple of `alignment`.
pub open spec fn padding_for(len: int, alignment: int) -> int {
    if len % alignment == 0 {
        0
    } else {
        alignment - len % alignment
    }
}

/// `len` rounded up to the next multiple of `alignment`.
pub open spec fn aligned_size(len: int, alignment: int) -> int {
    len + padding_for(len, alignment)
}

/// A message body of `body_len` bytes can be framed: the arithmetic stays within
/// `usize` and the length word fits in a `u32`.
pub open spec fn message_fits(body_len: int) -> bool {
    &&& body_len + LENGTH_PREFIX_SIZE + (ALIGNMENT - 1) <= usize::MAX
    &&& aligned_size(body_len + LENGTH_PREFIX_SIZE, ALIGNMENT as int) - LENGTH_PREFIX_SIZE
        <= u32::MAX
}

/// The value stored in the length word of a framed message whose body has `body_len` bytes:
/// the number of bytes that follow the word, padding included.
pub open spec fn message_length_word(body_len: int) -> int {
    aligned_size(body_len + LENGTH_PREFIX_SIZE, ALIGNMENT as int) - LENGTH_PREFIX_SIZE
}

/// End offset of the buffer written before buffer `i` of a batch (zero for the first one).
pub open spec fn previous_buffer_end(offsets: Seq<u64>, i: int) -> int {
    if i == 0 {
        0
    } else {
        offsets[i] as int
    }
}

/// Padding written after buffer `i` of a batch.
pub open spec fn batch_padding(lens: Seq<usize>, offsets: Seq<u64>, i: int) -> int {
    offsets[i + 1] - previous_buffer_end(offsets, i) - lens[i]
}

/// The buffers of a batch, of lengths `lens`, can be laid out at the end offsets
/// `offsets[1..]`: one more offset than buffers, every offset fits in `usize`, no buffer
/// runs past its end offset, and no gap needs more than `MAX_PADDING` zero bytes.
pub open spec fn batch_layout_ok(lens: Seq<usize>, offsets: Seq<u64>) -> bool {
    &&& offsets.len() == lens.len() + 1
    &&& forall|i: int|
        0 <= i < lens.len() ==> {
            &&& #[trigger] offsets[i + 1] <= usize::MAX
            &&& 0 <= batch_padding(lens, offsets, i) <= MAX_PADDING
        }
}

/// Rounding with a mask equals rounding up to the next multiple of the alignment.
proof fn lemma_mask_round_up(u: usize)
    requires
        u + 63 <= usize::MAX,
    ensures
        ((u + 63) as usize) & !63usize == aligned_size(u as int, 64),
        (((u + 63) as usize) & !63usize) % 64 == 0,
{
    assert(((u + 63) as usize) & !63usize == u + (if u % 64 == 0 { 0usize } else { (64 - u % 64) as usize }))
        by (bit_vector)
        requires
            (u + 63) as usize == u + 63,
    ;
}

/// How a message body is framed: the length word to write before it and the number of zero
/// bytes to write after it.
pub struct MessageLayout {
    pub length_prefix: Vec<u8>,
    pub padding: usize,
}

/// Writes length-prefixed, aligned messages and buffers to an underlying writer, keeping track
/// of the stream position. The writer itself is driven by the caller, which reports every
/// completed write back through `record_written`.
pub struct MessageWriter<W> {
    write: W,
    pos: u64,
    alignment: usize,
    scratch: Option<Vec<u8>>,
}

impl<W> MessageWriter<W> {
    /// The writer pads to `ALIGNMENT`, as every constructor sets it up.
    pub closed spec fn wf(self) -> bool {
        self.alignment == ALIGNMENT
    }

    /// Current position in the stream: the number of bytes written so far.
    pub closed spec fn position(self) -> u64 {
        self.pos
    }

    /// The underlying writer.
    pub closed spec fn inner(self) -> W {
        self.write
    }

    /// The reusable scratch buffer, if one is held.
    pub closed spec fn scratch_buffer(self) -> Option<Seq<u8>> {
        match self.scratch {
            Some(buf) => Some(buf@),
            None => None,
        }
    }

    pub fn new(write: W) -> (res: Self)
        ensures
            res.wf(),
            res.inner() == write,
            res.position() == 0,
            res.scratch_buffer() == Some(Seq::<u8>::empty()),
    {
        assert(ALIGNMENT <= MAX_PADDING);
        MessageWriter { write, pos: 0, alignment: ALIGNMENT, scratch: Some(Vec::new()) }
    }

    pub fn into_inner(self) -> (res: W)
        ensures
            res == self.inner(),
    {
        self.write
    }

    /// The underlying writer, to perform the writes that `record_written` then accounts for.
    pub fn get_mut(&mut self) -> (res: &mut W)
        ensures
            *res == old(self).inner(),
            final(self).inner() == *final(res),
            final(self).position() == old(self).position(),
            final(self).scratch_buffer() == old(self).scratch_buffer(),
            final(self).wf() == old(self).wf(),
    {
        &mut self.write
    }

    /// Returns the current position in the stream.
    pub fn tell(&self) -> (res: u64)
        ensures
            res == self.position(),
    {
        self.pos
    }

    /// Accounts for `n` bytes that the underlying writer has accepted.
    pub fn record_written(&mut self, n: usize)
        requires
            old(self).wf(),
            old(self).position() + n <= u64::MAX,
        ensures
            final(self).wf(),
            final(self).position() == old(self).position() + n,
            final(self).inner() == old(self).inner(),
            final(self).scratch_buffer() == old(self).scratch_buffer(),
    {
        self.pos = self.pos + n as u64;
    }

    /// Takes the scratch buffer (a fresh one if a previous write lost it), empties it and
    /// reserves the four bytes that the length word will occupy, so that a flatbuffer built
    /// into it is aligned as it will be in the stream.
    pub fn take_scratch(&mut self) -> (buf: Vec<u8>)
        requires
            old(self).wf(),
        ensures
            final(self).wf(),
            buf@ == seq![0u8, 0u8, 0u8, 0u8],
            final(self).scratch_buffer() is None,
            final(self).position() == old(self).position(),
            final(self).inner() == old(self).inner(),
    {
        let mut scratch = match self.scratch.take() {
            Some(buf) => buf,
            None => Vec::new(),
        };
        scratch.clear();
        let zeros: [u8; 4] = [0u8; 4];
        scratch.extend_from_slice(&zeros);
        assert(scratch@ =~= seq![0u8, 0u8, 0u8, 0u8]);
        scratch
    }

    /// Hands a buffer back to be reused as scratch space by the next message.
    pub fn restore_scratch(&mut self, buf: Vec<u8>)
        requires
            old(self).wf(),
        ensures
            final(self).wf(),
            final(self).scratch_buffer() == Some(buf@),
            final(self).position() == old(self).position(),
            final(self).inner() == old(self).inner(),
    {
        self.scratch = Some(buf);
    }

    /// Whether a message body of `body_len` bytes can be framed at the current position.
    pub fn can_frame_message(&self, body_len: usize) -> (ok: bool)
        requires
            self.wf(),
        ensures
            ok == (message_fits(body_len as int) && self.position() % (ALIGNMENT as u64) == 0),
    {
        if body_len > usize::MAX - LENGTH_PREFIX_SIZE - (self.alignment - 1) {
            return false;
        }
        let unaligned: usize = LENGTH_PREFIX_SIZE + body_len;
        proof {
            lemma_mask_round_up(unaligned);
        }
        let aligned: usize = (unaligned + (self.alignment - 1)) & !(self.alignment - 1);
        if aligned - LENGTH_PREFIX_SIZE > u32::MAX as usize {
            return false;
        }
        self.pos % (self.alignment as u64) == 0
    }

    /// Frames a message body of `body_len` bytes: the length word holds the size of the body
    /// plus padding, and the padding brings the framed message to a multiple of the alignment.
    ///
    /// The stream must be aligned before the message, so that it is aligned again after it.
    pub fn message_layout(&self, body_len: usize) -> (layout: MessageLayout)
        requires
            self.wf(),
            message_fits(body_len as int),
            self.position() % (ALIGNMENT as u64) == 0,
        ensures
            layout.padding == padding_for(body_len + LENGTH_PREFIX_SIZE, ALIGNMENT as int),
            layout.padding < ALIGNMENT,
            layout.length_prefix@ == spec_u32_to_le_bytes(
                message_length_word(body_len as int) as u32,
            ),
            spec_u32_from_le_bytes(layout.length_prefix@) == message_length_word(body_len as int),
            LENGTH_PREFIX_SIZE + body_len + layout.padding == message_length_word(body_len as int)
                + LENGTH_PREFIX_SIZE,
    {
        let unaligned: usize = LENGTH_PREFIX_SIZE + body_len;
        proof {
            lemma_mask_round_up(unaligned);
        }
        let aligned: usize = (unaligned + (self.alignment - 1)) & !(self.alignment - 1);
        let padding: usize = aligned - unaligned;
        let word: u32 = (aligned - LENGTH_PREFIX_SIZE) as u32;
        let length_prefix = u32_to_le_bytes(word);
        proof {
            lemma_auto_spec_u32_to_from_le_bytes();
        }
        MessageLayout { length_prefix, padding }
    }

    /// Number of zero bytes to write after a schema or page of `len` bytes so that it ends on
    /// an aligned boundary.
    pub fn trailing_padding(&self, len: usize) -> (padding: usize)
        requires
            self.wf(),
            aligned_size(len as int, ALIGNMENT as int) <= usize::MAX,
        ensures
            padding == padding_for(len as int, ALIGNMENT as int),
            padding < ALIGNMENT,
            (len + padding) % (ALIGNMENT as int) == 0,
    {
        let rem: usize = len % self.alignment;
        if rem == 0 {
            0
        } else {
            self.alignment - rem
        }
    }

    /// Whether buffers of lengths `lens` can be laid out at the end offsets `offsets[1..]`.
    pub fn batch_layout_valid(&self, lens: &Vec<usize>, offsets: &Vec<u64>) -> (ok: bool)
        ensures
            ok == batch_layout_ok(lens@, offsets@),
    {
        if offsets.len() == 0 || offsets.len() - 1 != lens.len() {
            return false;
        }
        let mut i: usize = 0;
        let mut current: u64 = 0;
        while i < lens.len()
            invariant
                offsets.len() == lens.len() + 1,
                i <= lens.len(),
                current as int == previous_buffer_end(offsets@, i as int),
                forall|j: int|
                    0 <= j < i ==> {
                        &&& #[trigger] offsets@[j + 1] <= usize::MAX
                        &&& 0 <= batch_padding(lens@, offsets@, j) <= MAX_PADDING
                    },
            decreases lens.len() - i,
        {
            let end: u64 = offsets[i + 1];
            if end > usize::MAX as u64 {
                assert(!(offsets@[i + 1] <= usize::MAX));
                return false;
            }
            let len: u64 = lens[i] as u64;
            if current > end || len > end - current || end - current - len > MAX_PADDING as u64 {
                assert(!(0 <= batch_padding(lens@, offsets@, i as int) <= MAX_PADDING));
                return false;
            }
            current = end;
            i = i + 1;
        }
        true
    }

    /// Zero bytes to write after each buffer of a batch so that buffer `i` ends at
    /// `offsets[i + 1]`.
    pub fn buffer_paddings(&self, lens: &Vec<usize>, offsets: &Vec<u64>) -> (paddings: Vec<usize>)
        requires
            batch_layout_ok(lens@, offsets@),
        ensures
            paddings.len() == lens.len(),
            forall|i: int|
                0 <= i < lens.len() ==> #[trigger] paddings@[i] == batch_padding(
                    lens@,
                    offsets@,
                    i,
                ),
            forall|i: int| 0 <= i < lens.len() ==> #[trigger] paddings@[i] <= MAX_PADDING,
    {
        let mut paddings: Vec<usize> = Vec::new();
        let mut current: usize = 0;
        let mut i: usize = 0;
        while i < lens.len()
            invariant
                batch_layout_ok(lens@, offsets@),
                i <= lens.len(),
                paddings.len() == i,
                current as int == previous_buffer_end(offsets@, i as int),
                forall|j: int|
                    0 <= j < i ==> #[trigger] paddings@[j] == batch_padding(lens@, offsets@, j),
            decreases lens.len() - i,
        {
            assert(offsets@[i + 1] <= usize::MAX);
            assert(0 <= batch_padding(lens@, offsets@, i as int) <= MAX_PADDING);
            let end: usize = offsets[i + 1] as usize;
            let padding: usize = end - current - lens[i];
            paddings.push(padding);
            current = end;
            i = i + 1;
        }
        paddings
    }
}

/// Framing a message at an aligned position leaves the stream aligned: the length word, the
/// body and the padding together fill a whole number of alignment units.
pub proof fn lemma_message_keeps_alignment(pos: int, body_len: int)
    requires
        pos >= 0,
        body_len >= 0,
        pos % (ALIGNMENT as int) == 0,
    ensures
        (pos + LENGTH_PREFIX_SIZE + body_len + padding_for(
            body_len + LENGTH_PREFIX_SIZE,
            ALIGNMENT as int,
        )) % (ALIGNMENT as int) == 0,
{
}

/// Padding a schema or page leaves an aligned stream aligned.
pub proof fn lemma_trailing_padding_keeps_alignment(pos: int, len: int)
    requires
        pos >= 0,
        len >= 0,
        pos % (ALIGNMENT as int) == 0,
    ensures
        (pos + len + padding_for(len, ALIGNMENT as int)) % (ALIGNMENT as int) == 0,
        0 <= padding_for(len, ALIGNMENT as int) < ALIGNMENT,
{
}

/// `n` zero bytes.
pub open spec fn zero_bytes(n: nat) -> Seq<u8> {
    Seq::new(n, |i: int| 0u8)
}

/// The bytes of a framed message whose body is `body`: the length word, the body and the padding.
pub open spec fn framed_message(body: Seq<u8>) -> Seq<u8> {
    spec_u32_to_le_bytes(message_length_word(body.len() as int) as u32) + body + zero_bytes(
        padding_for(body.len() + LENGTH_PREFIX_SIZE, ALIGNMENT as int) as nat,
    )
}

/// Bytes followed by the zero padding that ends them on an aligned boundary.
pub open spec fn aligned_bytes(bytes: Seq<u8>) -> Seq<u8> {
    bytes + zero_bytes(padding_for(bytes.len() as int, ALIGNMENT as int) as nat)
}

/// The lengths of a batch's buffers.
pub open spec fn buffer_lens(buffers: Seq<Vec<u8>>) -> Seq<usize> {
    buffers.map_values(|b: Vec<u8>| b@.len() as usize)
}

/// The first `n` buffers of a batch, each followed by its padding.
pub open spec fn batch_bytes(buffers: Seq<Vec<u8>>, offsets: Seq<u64>, n: int) -> Seq<u8>
    decreases n,
{
    if n <= 0 {
        Seq::empty()
    } else {
        batch_bytes(buffers, offsets, n - 1) + buffers[n - 1]@ + zero_bytes(
            batch_padding(buffer_lens(buffers), offsets, n - 1) as nat,
        )
    }
}

/// `after` is `before` with bytes appended, and the position advanced by exactly as many bytes.
pub open spec fn appends_tracked(before: MessageWriter<Vec<u8>>, after: MessageWriter<Vec<u8>>) -> bool {
    &&& after.inner()@.len() >= before.inner()@.len()
    &&& after.inner()@.subrange(0, before.inner()@.len() as int) == before.inner()@
    &&& after.inner()@.len() - after.position() == before.inner()@.len() - before.position()
}

impl MessageWriter<Vec<u8>> {
    /// Appends `buf` to the in-memory stream and accounts for it.
    pub fn write_all(&mut self, buf: &[u8])
        requires
            old(self).wf(),
            old(self).position() + buf@.len() <= u64::MAX,
        ensures
            final(self).wf(),
            final(self).inner()@ == old(self).inner()@ + buf@,
            final(self).position() == old(self).position() + buf@.len(),
            final(self).scratch_buffer() == old(self).scratch_buffer(),
            appends_tracked(*old(self), *final(self)),
    {
        let ghost before = self.write@;
        let mut i: usize = 0;
        while i < buf.len()
            invariant
                i <= buf@.len(),
                self.write@ == before + buf@.subrange(0, i as int),
                self.pos == old(self).pos,
                self.alignment == old(self).alignment,
                self.scratch == old(self).scratch,
                old(self).wf(),
                old(self).position() + buf@.len() <= u64::MAX,
            decreases buf@.len() - i,
        {
            self.write.push(buf[i]);
            assert(buf@.subrange(0, i + 1) =~= buf@.subrange(0, i as int).push(buf@[i as int]));
            i = i + 1;
        }
        assert(buf@.subrange(0, buf@.len() as int) =~= buf@);
        self.pos = self.pos + buf.len() as u64;
        assert(self.write@.subrange(0, before.len() as int) =~= before);
    }

    /// Appends `n` zero bytes of padding.
    fn write_zeros(&mut self, n: usize)
        requires
            old(self).wf(),
            old(self).position() + n <= u64::MAX,
        ensures
            final(self).wf(),
            final(self).inner()@ == old(self).inner()@ + zero_bytes(n as nat),
            final(self).position() == old(self).position() + n,
            final(self).scratch_buffer() == old(self).scratch_buffer(),
            appends_tracked(*old(self), *final(self)),
    {
        let ghost before = self.write@;
        let mut i: usize = 0;
        while i < n
            invariant
                i <= n,
                self.write@ == before + zero_bytes(i as nat),
                self.pos == old(self).pos,
                self.alignment == old(self).alignment,
                self.scratch == old(self).scratch,
                old(self).wf(),
                old(self).position() + n <= u64::MAX,
            decreases n - i,
        {
            self.write.push(0u8);
            assert(zero_bytes((i + 1) as nat) =~= zero_bytes(i as nat).push(0u8));
            i = i + 1;
        }
        self.pos = self.pos + n as u64;
        assert(self.write@.subrange(0, before.len() as int) =~= before);
    }

    /// Writes a framed message whose finished flatbuffer is `body`: the length word, the body and
    /// zero padding, leaving the stream aligned.
    pub fn write_message(&mut self, body: &[u8])
        requires
            old(self).wf(),
            message_fits(body@.len() as int),
            old(self).position() % (ALIGNMENT as u64) == 0,
            old(self).position() + message_length_word(body@.len() as int) + LENGTH_PREFIX_SIZE
                <= u64::MAX,
        ensures
            final(self).wf(),
            final(self).inner()@ == old(self).inner()@ + framed_message(body@),
            final(self).position() == old(self).position() + message_length_word(body@.len() as int)
                + LENGTH_PREFIX_SIZE,
            final(self).position() % (ALIGNMENT as u64) == 0,
            final(self).scratch_buffer() == old(self).scratch_buffer(),
            appends_tracked(*old(self), *final(self)),
    {
        let ghost before = self.write@;
        let layout = self.message_layout(body.len());
        proof {
            vstd::bytes::lemma_auto_spec_u32_to_from_le_bytes();
        }
        assert(layout.length_prefix@.len() == LENGTH_PREFIX_SIZE);
        self.write_all(layout.length_prefix.as_slice());
        self.write_all(body);
        self.write_zeros(layout.padding);
        proof {
            lemma_message_keeps_alignment(old(self).position() as int, body@.len() as int);
            assert(self.write@ =~= before + framed_message(body@));
            assert(self.write@.subrange(0, before.len() as int) =~= before);
        }
    }

    /// Writes `bytes` followed by the zero padding that ends them on an aligned boundary, as a
    /// schema written without a length word, or the data of a page, is written.
    pub fn write_aligned(&mut self, bytes: &[u8])
        requires
            old(self).wf(),
            aligned_size(bytes@.len() as int, ALIGNMENT as int) <= usize::MAX,
            old(self).position() + aligned_size(bytes@.len() as int, ALIGNMENT as int) <= u64::MAX,
        ensures
            final(self).wf(),
            final(self).inner()@ == old(self).inner()@ + aligned_bytes(bytes@),
            final(self).position() == old(self).position() + aligned_size(
                bytes@.len() as int,
                ALIGNMENT as int,
            ),
            old(self).position() % (ALIGNMENT as u64) == 0 ==> final(self).position() % (
            ALIGNMENT as u64) == 0,
            final(self).scratch_buffer() == old(self).scratch_buffer(),
            appends_tracked(*old(self), *final(self)),
    {
        let ghost before = self.write@;
        self.write_all(bytes);
        let padding = self.trailing_padding(bytes.len());
        self.write_zeros(padding);
        proof {
            if old(self).position() % (ALIGNMENT as u64) == 0 {
                lemma_trailing_padding_keeps_alignment(old(self).position() as int, bytes@.len() as int);
            }
            assert(self.write@ =~= before + aligned_bytes(bytes@));
            assert(self.write@.subrange(0, before.len() as int) =~= before);
        }
    }

    /// Writes a page: its framed message, then the page bytes padded to the alignment.
    pub fn write_page(&mut self, message_body: &[u8], page: &[u8])
        requires
            old(self).wf(),
            message_fits(message_body@.len() as int),
            old(self).position() % (ALIGNMENT as u64) == 0,
            aligned_size(page@.len() as int, ALIGNMENT as int) <= usize::MAX,
            old(self).position() + message_length_word(message_body@.len() as int)
                + LENGTH_PREFIX_SIZE + aligned_size(page@.len() as int, ALIGNMENT as int) <= u64::MAX,
        ensures
            final(self).wf(),
            final(self).inner()@ == old(self).inner()@ + framed_message(message_body@)
                + aligned_bytes(page@),
            final(self).position() % (ALIGNMENT as u64) == 0,
            final(self).scratch_buffer() == old(self).scratch_buffer(),
            appends_tracked(*old(self), *final(self)),
    {
        let ghost before = self.write@;
        let ghost start = *self;
        self.write_message(message_body);
        let ghost middle = *self;
        self.write_aligned(page);
        proof {
            lemma_appends_tracked_trans(start, middle, *self);
            assert(self.write@ =~= before + framed_message(message_body@) + aligned_bytes(page@));
        }
    }

    /// Writes a schema flatbuffer without a length word, padded to the alignment.
    pub fn write_dtype_raw(&mut self, schema: &[u8])
        requires
            old(self).wf(),
            aligned_size(schema@.len() as int, ALIGNMENT as int) <= usize::MAX,
            old(self).position() + aligned_size(schema@.len() as int, ALIGNMENT as int) <= u64::MAX,
        ensures
            final(self).wf(),
            final(self).inner()@ == old(self).inner()@ + aligned_bytes(schema@),
            old(self).position() % (ALIGNMENT as u64) == 0 ==> final(self).position() % (
            ALIGNMENT as u64) == 0,
            final(self).scratch_buffer() == old(self).scratch_buffer(),
            appends_tracked(*old(self), *final(self)),
    {
        self.write_aligned(schema);
    }

    /// Writes a batch: its framed message, then each buffer followed by the zero padding that makes
    /// buffer `i` end at `offsets[i + 1]`.
    pub fn write_batch(&mut self, message_body: &[u8], buffers: &Vec<Vec<u8>>, offsets: &Vec<u64>)
        requires
            old(self).wf(),
            message_fits(message_body@.len() as int),
            old(self).position() % (ALIGNMENT as u64) == 0,
            batch_layout_ok(buffer_lens(buffers@), offsets@),
            old(self).position() + message_length_word(message_body@.len() as int)
                + LENGTH_PREFIX_SIZE + offsets@.last() <= u64::MAX,
        ensures
            final(self).wf(),
            final(self).inner()@ == old(self).inner()@ + framed_message(message_body@) + batch_bytes(
                buffers@,
                offsets@,
                buffers@.len() as int,
            ),
            final(self).scratch_buffer() == old(self).scratch_buffer(),
            appends_tracked(*old(self), *final(self)),
    {
        let ghost before = self.write@;
        let ghost start = *self;
        self.write_message(message_body);
        let ghost framed = self.write@;
        let ghost after_message = *self;
        assert(batch_bytes(buffers@, offsets@, 0) =~= Seq::<u8>::empty());
        assert(framed + batch_bytes(buffers@, offsets@, 0) =~= framed);
        let mut lens: Vec<usize> = Vec::new();
        let mut j: usize = 0;
        while j < buffers.len()
            invariant
                j <= buffers@.len(),
                lens@ == buffer_lens(buffers@).subrange(0, j as int),
            decreases buffers@.len() - j,
        {
            lens.push(buffers[j].len());
            assert(buffer_lens(buffers@).subrange(0, j + 1) =~= buffer_lens(buffers@).subrange(
                0,
                j as int,
            ).push(buffers@[j as int]@.len() as usize));
            j = j + 1;
        }
        assert(lens@ =~= buffer_lens(buffers@));
        let paddings = self.buffer_paddings(&lens, offsets);
        let mut i: usize = 0;
        while i < buffers.len()
            invariant
                self.wf(),
                i <= buffers@.len(),
                batch_layout_ok(buffer_lens(buffers@), offsets@),
                lens@ == buffer_lens(buffers@),
                paddings@.len() == buffers@.len(),
                forall|k: int|
                    0 <= k < buffers@.len() ==> #[trigger] paddings@[k] == batch_padding(
                        lens@,
                        offsets@,
                        k,
                    ),
                self.write@ == framed + batch_bytes(buffers@, offsets@, i as int),
                self.position() == after_message.position() + previous_buffer_end(offsets@, i as int),
                after_message.position() + offsets@.last() <= u64::MAX,
                self.scratch_buffer() == after_message.scratch_buffer(),
                appends_tracked(start, *self),
            decreases buffers@.len() - i,
        {
            assert(0 <= batch_padding(lens@, offsets@, i as int) <= MAX_PADDING);
            assert(offsets@[i + 1] <= usize::MAX);
            proof {
                lemma_batch_offsets_grow(lens@, offsets@, i as int + 1);
            }
            let blen: usize = buffers[i].len();
            assert(lens@[i as int] == buffers@[i as int]@.len());
            let ghost s0 = *self;
            self.write_all(buffers[i].as_slice());
            let ghost s1 = *self;
            self.write_zeros(paddings[i]);
            proof {
                lemma_appends_tracked_trans(start, s0, s1);
                lemma_appends_tracked_trans(start, s1, *self);
                assert(self.write@ =~= framed + batch_bytes(buffers@, offsets@, i as int + 1));
            }
            i = i + 1;
        }
        proof {
            assert(self.write@.subrange(0, before.len() as int) =~= before);
        }
    }

    /// The in-memory stream written so far.
    pub fn written(&self) -> (res: &Vec<u8>)
        ensures
            *res == self.inner(),
    {
        &self.write
    }
}

/// Offsets after buffer `n` are at least its end: ends grow along the batch and the last offset
/// bounds them all.
proof fn lemma_batch_offsets_grow(lens: Seq<usize>, offsets: Seq<u64>, n: int)
    requires
        batch_layout_ok(lens, offsets),
        0 < n <= lens.len(),
    ensures
        previous_buffer_end(offsets, n) <= offsets.last(),
    decreases lens.len() - n,
{
    if n < lens.len() {
        assert(0 <= batch_padding(lens, offsets, n));
        lemma_batch_offsets_grow(lens, offsets, n + 1);
    }
}

/// Tracked appends compose: two runs of writes make one.
pub proof fn lemma_appends_tracked_trans(
    a: MessageWriter<Vec<u8>>,
    b: MessageWriter<Vec<u8>>,
    c: MessageWriter<Vec<u8>>,
)
    requires
        appends_tracked(a, b),
        appends_tracked(b, c),
    ensures
        appends_tracked(a, c),
{
    assert(c.inner()@.subrange(0, a.inner()@.len() as int) =~= c.inner()@.subrange(
        0,
        b.inner()@.len() as int,
    ).subrange(0, a.inner()@.len() as int));
}

/// After any writes since a writer was created around `w`, the writer holds `w` followed by
/// exactly `tell()` more bytes.
pub proof fn lemma_stream_holds_written_bytes(start: MessageWriter<Vec<u8>>, now: MessageWriter<Vec<u8>>)
    requires
        start.position() == 0,
        appends_tracked(start, now),
    ensures
        now.inner()@.len() == start.inner()@.len() + now.position(),
        now.inner()@.subrange(0, start.inner()@.len() as int) == start.inner()@,
{
}

} // verus!
