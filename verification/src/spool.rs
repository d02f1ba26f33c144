//! Response bodies that an application hands over chunk by chunk. A body that
//! stays small is kept in memory; a larger one goes to a file.
//!
//! Nothing here touches a file. [`BodyReader`] says what is to be written to one,
//! and holds on to it; `F` is the kind of file handle that the program uses.

use vstd::prelude::*;
use crate::handler;
use crate::handler::ResponseBody;

verus! {

/// The most that is kept of a body in memory.
pub const SPOOL_THRESHOLD_BYTES: usize = 1048576;

/// Said of a chunk that is missing.
pub const MISSING_CHUNK: &'static str = "Rack body#each yielded with no argument";

/// Said of a body that is read while another is being read.
pub const REENTRANT_READ: &'static str =
    "HelixRack: a Rack response body's #each triggered another request body read on the same thread before the first one finished -- refusing rather than silently corrupting either body";

/// What has come in of a body.
#[derive(Debug)]
pub enum BodyAccumulator<F> {
    InMemory(Vec<u8>),
    Spooled(F),
}

impl<F> View for BodyAccumulator<F> {
    type V = handler::BodyView<F>;

    open spec fn view(&self) -> handler::BodyView<F> {
        match self {
            BodyAccumulator::InMemory(bytes) => handler::BodyView::InMemory(bytes@),
            BodyAccumulator::Spooled(file) => handler::BodyView::Spooled(*file),
        }
    }
}

/// What becomes of a chunk.
#[derive(Debug, Clone, Copy, PartialEq, Eq, Structural)]
pub enum SpoolStep {
    /// It has been added to what is in memory.
    Buffered,
    /// What is in memory, and then the chunk, are to be written to a new file.
    Spill,
    /// The chunk is to be written to the file.
    Append,
}

/// What is in memory, or `None` where the body is in a file.
pub open spec fn memory<F>(body: handler::BodyView<F>) -> Option<Seq<u8>> {
    match body {
        handler::BodyView::InMemory(bytes) => Some(bytes),
        handler::BodyView::Spooled(_) => None,
    }
}

/// What becomes of a chunk, given what is in memory.
pub open spec fn step_for(kept: Option<Seq<u8>>, chunk: Seq<u8>) -> SpoolStep {
    match kept {
        Some(bytes) => if bytes.len() + chunk.len() > SPOOL_THRESHOLD_BYTES {
            SpoolStep::Spill
        } else {
            SpoolStep::Buffered
        },
        None => SpoolStep::Append,
    }
}

impl<F> BodyAccumulator<F> {
    /// Takes in a chunk. Where it is to be written to a file, nothing changes
    /// yet.
    pub fn spool_chunk(&mut self, chunk: &[u8]) -> (step: SpoolStep)
        ensures
            step == step_for(memory(old(self)@), chunk@),
            final(self)@ == (if step == SpoolStep::Buffered {
                handler::BodyView::InMemory(old(self)@->InMemory_0 + chunk@)
            } else {
                old(self)@
            }),
    {
        match self {
            BodyAccumulator::InMemory(bytes) => {
                if bytes.len() > SPOOL_THRESHOLD_BYTES || chunk.len() > SPOOL_THRESHOLD_BYTES
                    - bytes.len() {
                    SpoolStep::Spill
                } else {
                    let ghost before = bytes@;
                    bytes.extend_from_slice(chunk);
                    assert(bytes@ =~= before + chunk@);
                    SpoolStep::Buffered
                }
            },
            BodyAccumulator::Spooled(_) => SpoolStep::Append,
        }
    }

    /// What is in memory: nothing, where the body is in a file.
    pub fn buffered(&self) -> (bytes: &[u8])
        ensures
            bytes@ == (match memory(self@) {
                Some(kept) => kept,
                None => Seq::empty(),
            }),
    {
        match self {
            BodyAccumulator::InMemory(bytes) => bytes.as_slice(),
            BodyAccumulator::Spooled(_) => {
                let nothing: &[u8] = &[];
                assert(nothing@ =~= Seq::empty());
                nothing
            },
        }
    }

    /// The file, where the body is in one.
    pub fn file(&self) -> (file: Option<&F>)
        ensures
            match self@ {
                handler::BodyView::Spooled(held) => file == Some(&held),
                handler::BodyView::InMemory(_) => file is None,
            },
    {
        match self {
            BodyAccumulator::InMemory(_) => None,
            BodyAccumulator::Spooled(file) => Some(file),
        }
    }

    /// Takes in that what was in memory is in `file` now.
    pub fn spilled(&mut self, file: F)
        ensures
            final(self)@ == handler::BodyView::Spooled(file),
    {
        *self = BodyAccumulator::Spooled(file);
    }
}

/// Reads one body at a time.
#[derive(Debug)]
pub struct BodyReader<F> {
    reading: bool,
    accumulator: BodyAccumulator<F>,
}

/// A reader as plain values.
#[verifier::ext_equal]
pub struct ReaderView<F> {
    pub reading: bool,
    pub body: handler::BodyView<F>,
}

impl<F> View for BodyReader<F> {
    type V = ReaderView<F>;

    closed spec fn view(&self) -> ReaderView<F> {
        ReaderView { reading: self.reading, body: self.accumulator@ }
    }
}

impl<F> ReaderView<F> {
    /// No body is being read, and nothing is left of any.
    pub open spec fn at_rest() -> Self {
        ReaderView { reading: false, body: handler::BodyView::InMemory(Seq::empty()) }
    }

    /// A body is being read, and nothing has come in of it yet.
    pub open spec fn begun() -> Self {
        ReaderView { reading: true, body: handler::BodyView::InMemory(Seq::empty()) }
    }

    /// A chunk has come in. Where it is to be written to a file, nothing changes
    /// yet.
    pub open spec fn collecting(self, chunk: Seq<u8>) -> (Self, SpoolStep) {
        let step = step_for(memory(self.body), chunk);
        if step == SpoolStep::Buffered {
            let body = handler::BodyView::InMemory(self.body->InMemory_0 + chunk);
            (ReaderView { body, ..self }, step)
        } else {
            (self, step)
        }
    }

    /// What was in memory is in `file` now.
    pub open spec fn spilling(self, file: F) -> Self {
        ReaderView { body: handler::BodyView::Spooled(file), ..self }
    }
}

impl<F> BodyReader<F> {
    /// A reader at rest.
    pub fn new() -> (reader: Self)
        ensures
            reader@ == ReaderView::<F>::at_rest(),
    {
        let reader = BodyReader {
            reading: false,
            accumulator: BodyAccumulator::InMemory(Vec::new()),
        };
        assert(reader@ =~= ReaderView::<F>::at_rest());
        reader
    }

    /// Whether a body is being read.
    pub fn reading(&self) -> (yes: bool)
        ensures
            yes == self@.reading,
    {
        self.reading
    }

    /// Begins to read a body. While another is being read, that is refused, and
    /// the other is left alone.
    pub fn begin(&mut self) -> (begun: Result<(), &'static str>)
        ensures
            old(self)@.reading ==> begun == Err::<(), &'static str>(REENTRANT_READ) && final(self)@
                == old(self)@,
            !old(self)@.reading ==> begun is Ok && final(self)@ == ReaderView::<F>::begun(),
    {
        if self.reading {
            return Err(REENTRANT_READ);
        }
        self.reading = true;
        self.accumulator = BodyAccumulator::InMemory(Vec::new());
        assert(self@ =~= ReaderView::<F>::begun());
        Ok(())
    }

    /// Takes in the next chunk, or refuses where there is none.
    pub fn collect_chunk(&mut self, chunk: Option<&[u8]>) -> (step: Result<SpoolStep, &'static str>)
        ensures
            match chunk {
                None => step == Err::<SpoolStep, &'static str>(MISSING_CHUNK) && final(self)@
                    == old(self)@,
                Some(bytes) => step is Ok && (final(self)@, step->Ok_0)
                    == old(self)@.collecting(bytes@),
            },
    {
        match chunk {
            None => Err(MISSING_CHUNK),
            Some(bytes) => Ok(self.accumulator.spool_chunk(bytes)),
        }
    }

    /// What is in memory of the body: nothing, where it is in a file.
    pub fn buffered(&self) -> (bytes: &[u8])
        ensures
            bytes@ == (match memory(self@.body) {
                Some(kept) => kept,
                None => Seq::empty(),
            }),
    {
        self.accumulator.buffered()
    }

    /// The file, where the body is in one.
    pub fn file(&self) -> (file: Option<&F>)
        ensures
            match self@.body {
                handler::BodyView::Spooled(held) => file == Some(&held),
                handler::BodyView::InMemory(_) => file is None,
            },
    {
        self.accumulator.file()
    }

    /// Takes in that what was in memory is in `file` now.
    pub fn spilled(&mut self, file: F)
        ensures
            final(self)@ == old(self)@.spilling(file),
    {
        self.accumulator.spilled(file);
    }

    /// Ends the reading and hands over the body.
    pub fn finish(&mut self) -> (body: ResponseBody<F>)
        ensures
            body@ == old(self)@.body,
            final(self)@ == ReaderView::<F>::at_rest(),
    {
        let mut taken = BodyAccumulator::InMemory(Vec::new());
        core::mem::swap(&mut taken, &mut self.accumulator);
        self.reading = false;
        assert(self@ =~= ReaderView::<F>::at_rest());
        match taken {
            BodyAccumulator::InMemory(bytes) => ResponseBody::InMemory(bytes),
            BodyAccumulator::Spooled(file) => ResponseBody::Spooled(file),
        }
    }

    /// Ends the reading and gives up what has come in.
    pub fn abandon(&mut self)
        ensures
            final(self)@ == ReaderView::<F>::at_rest(),
    {
        self.reading = false;
        self.accumulator = BodyAccumulator::InMemory(Vec::new());
        assert(self@ =~= ReaderView::<F>::at_rest());
    }
}

impl<F> BodyReader<F> {
    /// Ends the reading, given what came of it: hands over the body, or the error
    /// where an error stopped it. Nothing is left of the body either way.
    pub fn conclude<E>(&mut self, outcome: Result<(), E>) -> (body: Result<ResponseBody<F>, E>)
        ensures
            match outcome {
                Ok(_) => body is Ok && body->Ok_0@ == old(self)@.body,
                Err(error) => body == Err::<ResponseBody<F>, E>(error),
            },
            final(self)@ == ReaderView::<F>::at_rest(),
    {
        match outcome {
            Ok(_) => Ok(self.finish()),
            Err(error) => {
                self.abandon();
                Err(error)
            },
        }
    }
}

/// The chunks, one after the other.
pub open spec fn joined(chunks: Seq<Seq<u8>>) -> Seq<u8>
    decreases chunks.len(),
{
    if chunks.len() == 0 {
        Seq::empty()
    } else {
        joined(chunks.drop_last()) + chunks.last()
    }
}

/// A reader, and what has been written to the file of the body that it reads.
#[verifier::ext_equal]
pub struct ReadingView<F> {
    pub reader: ReaderView<F>,
    pub written: Seq<u8>,
}

/// How far a reading has come once `chunks` have come in and what each of them had
/// to have written has been written, to `file` if there was need of one.
pub open spec fn after_chunks<F>(chunks: Seq<Seq<u8>>, file: F) -> ReadingView<F>
    decreases chunks.len(),
{
    if chunks.len() == 0 {
        ReadingView { reader: ReaderView::begun(), written: Seq::empty() }
    } else {
        let before = after_chunks(chunks.drop_last(), file);
        let chunk = chunks.last();
        let (reader, step) = before.reader.collecting(chunk);
        match step {
            SpoolStep::Buffered => ReadingView { reader, ..before },
            SpoolStep::Spill => ReadingView {
                reader: reader.spilling(file),
                written: before.reader.body->InMemory_0 + chunk,
            },
            SpoolStep::Append => ReadingView { reader, written: before.written + chunk },
        }
    }
}

/// A reading gives the body that its chunks make up, and nothing of any other: in
/// memory, with nothing written, up to 1048576 bytes, and in the file as a whole
/// beyond that. A reading begins afresh whatever came before it, and goes on until
/// it is ended.
pub proof fn bodies_stay_whole<F>(chunks: Seq<Seq<u8>>, file: F)
    ensures
        ({
            let reading = after_chunks(chunks, file);
            &&& reading.reader.reading
            &&& if joined(chunks).len() <= SPOOL_THRESHOLD_BYTES {
                &&& reading.reader.body == handler::BodyView::<F>::InMemory(joined(chunks))
                &&& reading.written == Seq::<u8>::empty()
            } else {
                &&& reading.reader.body == handler::BodyView::Spooled(file)
                &&& reading.written == joined(chunks)
            }
        }),
    decreases chunks.len(),
{
    if chunks.len() > 0 {
        bodies_stay_whole(chunks.drop_last(), file);
    }
}

/// What reading a body comes to: the body, or `None` where it was refused or an
/// error stopped it; what was written to its file; and how the reader is left.
pub struct OutcomeView<F> {
    pub body: Option<handler::BodyView<F>>,
    pub written: Seq<u8>,
    pub reader: ReaderView<F>,
}

/// What reading a body comes to with a reader that is found as `start`: it is begun,
/// `chunks` come in, and it is concluded, with an error where it `fails`.
pub open spec fn reading_of<F>(
    start: ReaderView<F>,
    chunks: Seq<Seq<u8>>,
    file: F,
    fails: bool,
) -> OutcomeView<F> {
    if start.reading {
        OutcomeView { body: None, written: Seq::empty(), reader: start }
    } else {
        let reading = after_chunks(chunks, file);
        OutcomeView {
            body: if fails {
                None
            } else {
                Some(reading.reader.body)
            },
            written: reading.written,
            reader: ReaderView::at_rest(),
        }
    }
}

/// A reader that is free gives each body whole, whatever it was found with, unless
/// an error stops it, and is at rest again afterwards either way. One that is not
/// free refuses, and its other body is untouched.
pub proof fn every_reading_stands_alone<F>(
    start: ReaderView<F>,
    chunks: Seq<Seq<u8>>,
    file: F,
    fails: bool,
)
    ensures
        ({
            let outcome = reading_of(start, chunks, file, fails);
            let whole = joined(chunks);
            &&& start.reading ==> outcome.body is None && outcome.reader == start
            &&& !start.reading ==> outcome.reader == ReaderView::<F>::at_rest()
            &&& !start.reading && fails ==> outcome.body is None
            &&& !start.reading && !fails && whole.len() <= SPOOL_THRESHOLD_BYTES
                ==> outcome.body == Some(handler::BodyView::<F>::InMemory(whole))
            &&& !start.reading && !fails && whole.len() > SPOOL_THRESHOLD_BYTES ==> {
                &&& outcome.body == Some(handler::BodyView::Spooled(file))
                &&& outcome.written == whole
            }
        }),
{
    bodies_stay_whole(chunks, file);
}

} // verus!
