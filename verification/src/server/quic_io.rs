//! The polling side of a stream whose reads and writes are futures: what a poll does, by
//! where the stream's one read, one write and its end stand.
use vstd::prelude::*;

verus! {

/// How much is read at once.
pub const READ_CHUNK: usize = 16384;

/// Where the end of a stream stands.
#[derive(Clone, Copy, Debug, PartialEq, Eq, Structural)]
pub enum ShutdownState {
    NotStarted,
    Finishing,
    Done,
}

/// Where a stream stands.
#[derive(Clone, Copy, Debug, PartialEq, Eq, Structural)]
pub struct QuicStreamIo {
    /// A read was started and has not finished.
    pub reading: bool,
    /// A write was started and has not finished.
    pub writing: bool,
    pub shutdown: ShutdownState,
}

/// What to do about a future of the stream.
#[derive(Clone, Copy, Debug, PartialEq, Eq, Structural)]
pub enum Start {
    /// Start one, and poll it: a read of at most this many bytes, or a write of all that is
    /// handed in.
    New(usize),
    /// Poll the one that was started before.
    Pending,
}

impl QuicStreamIo {
    pub fn new() -> (r: QuicStreamIo)
        ensures
            r == (QuicStreamIo {
                reading: false,
                writing: false,
                shutdown: ShutdownState::NotStarted,
            }),
    {
        QuicStreamIo { reading: false, writing: false, shutdown: ShutdownState::NotStarted }
    }

    /// A poll for reading into a buffer with that much room.
    pub fn poll_read(&mut self, room: usize) -> (r: Start)
        ensures
            *final(self) == (QuicStreamIo { reading: true, ..*old(self) }),
            r == (if old(self).reading {
                Start::Pending
            } else {
                Start::New(
                    if room < READ_CHUNK {
                        room
                    } else {
                        READ_CHUNK
                    },
                )
            }),
    {
        if self.reading {
            Start::Pending
        } else {
            self.reading = true;
            Start::New(
                if room < READ_CHUNK {
                    room
                } else {
                    READ_CHUNK
                },
            )
        }
    }

    /// The read that was started has finished, whatever it came to.
    pub fn read_done(&mut self)
        ensures
            *final(self) == (QuicStreamIo { reading: false, ..*old(self) }),
    {
        self.reading = false;
    }

    /// A poll for writing that many bytes.
    pub fn poll_write(&mut self, len: usize) -> (r: Start)
        ensures
            *final(self) == (QuicStreamIo { writing: true, ..*old(self) }),
            r == (if old(self).writing {
                Start::Pending
            } else {
                Start::New(len)
            }),
    {
        if self.writing {
            Start::Pending
        } else {
            self.writing = true;
            Start::New(len)
        }
    }

    /// The write that was started has finished, whatever it came to.
    pub fn write_done(&mut self)
        ensures
            *final(self) == (QuicStreamIo { writing: false, ..*old(self) }),
    {
        self.writing = false;
    }

    /// A poll for ending the stream. `None` once it is ended: there is nothing to do.
    pub fn poll_shutdown(&mut self) -> (r: Option<Start>)
        ensures
            match old(self).shutdown {
                ShutdownState::NotStarted => r == Some(Start::New(0)) && *final(self)
                    == (QuicStreamIo { shutdown: ShutdownState::Finishing, ..*old(self) }),
                ShutdownState::Finishing => r == Some(Start::Pending) && *final(self) == *old(self),
                ShutdownState::Done => r is None && *final(self) == *old(self),
            },
    {
        match self.shutdown {
            ShutdownState::NotStarted => {
                self.shutdown = ShutdownState::Finishing;
                Some(Start::New(0))
            },
            ShutdownState::Finishing => Some(Start::Pending),
            ShutdownState::Done => None,
        }
    }

    /// The end that was started has finished, whatever it came to.
    pub fn shutdown_done(&mut self)
        ensures
            *final(self) == (QuicStreamIo { shutdown: ShutdownState::Done, ..*old(self) }),
    {
        self.shutdown = ShutdownState::Done;
    }
}

} // verus!
