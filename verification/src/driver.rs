//! The driver: a state machine over an optional open file handle, a carry
//! tail, a chunk history and an accumulated text buffer.
//!
//! The driver owns all decisions; the surrounding program performs the
//! operating-system calls and reports each outcome as an event
//! ([`crate::events`]).  Streaming mode feeds one [`ReadEvent`] per call to
//! [`FileDriver::stream_chunk`]; batch mode runs
//! [`FileDriver::begin_batch`], [`FileDriver::start_batch_cycle`], a loop of
//! [`FileDriver::batch_chunk`] and one [`FileDriver::finish_batch`].
//! Every transition is stated as a spec function over the driver's
//! mathematical model, [`DriverModel`].

use vstd::prelude::*;
use vstd::string::StrSliceExecFns;
use vstd::string::StringExecFns;
use vstd::utf8::valid_utf8;
use vstd::utf8::valid_utf8_concat;
use vstd::utf8::decode_utf8;
use crate::decode::decode_step;
use crate::decode::decode_step_ok;
use crate::decode::utf8_prefix_len;
use crate::decode::utf8_prefix_scan;
use crate::decode::lemma_prefix_valid;
use crate::decode::lemma_prefix_len_bounds;
use crate::decode::lemma_prefix_stop;
use crate::decode::lemma_prefix_scan_of_valid;
use crate::decode::lemma_valid_iff_prefix_full;
use crate::events::OpenEvent;
use crate::events::ReadEvent;
use crate::events::SyncEvent;
use crate::events::ErrorKind;
use crate::events::code_of;
use crate::paths::last_slash;
use crate::paths::lemma_last_slash_bounds;
use crate::paths::normalized_dir;
use crate::paths::normalize_directory;
use crate::paths::join_path;
use crate::paths::split_path;

verus! {

/// The mathematical state of a driver.
#[verifier::ext_equal]
pub ghost struct DriverModel {
    /// Whether a file handle is currently held.
    pub file_open: bool,
    /// Whether the held handle was opened for reading.
    pub readable: bool,
    /// Directory part of the configured path.
    pub directory: Seq<char>,
    /// File-name part of the configured path.
    pub file_name: Seq<char>,
    /// The configured path.
    pub path: Seq<char>,
    /// Bytes per physical read.
    pub chunk_size: u16,
    /// Whether raw consumed chunks are retained in the history.
    pub buffered: bool,
    /// Whether a successful streaming read keeps the handle open.
    pub persistent: bool,
    /// Whether diagnostic report lines are written.
    pub debug: bool,
    /// Undecoded suffix bytes carried from the previous read.
    pub carry: Seq<u8>,
    /// The consumed bytes of every chunk read so far, in order.
    pub history: Seq<Seq<u8>>,
    /// Bytes of the text decoded from the most recent read, when a read
    /// cycle has started.
    pub chunk_text: Option<Seq<u8>>,
    /// Bytes of the accumulated text, when batch output is held.
    pub content: Option<Seq<u8>>,
    /// Diagnostic report text.
    pub report: Seq<char>,
    /// Message log of recorded failures.
    pub err_msg: Seq<char>,
    /// The most recently recorded failure, kept until the next failure.
    pub err: Option<ErrorKind>,
    /// Whether a failure was recorded during the current batch cycle.
    pub cycle_err: bool,
}

impl DriverModel {
    /// Well-formedness: a readable handle is open, the carry tail is at most
    /// three bytes, and all decoded text is valid UTF-8.
    pub open spec fn wf(self) -> bool {
        &&& (self.readable ==> self.file_open)
        &&& self.carry.len() <= 3
        &&& (self.content matches Some(b) ==> valid_utf8(b))
        &&& (self.chunk_text matches Some(b) ==> valid_utf8(b))
        &&& (forall|i: int| 0 <= i < self.history.len() ==> valid_utf8(#[trigger] self.history[i]))
    }
}

/// The state of a freshly constructed driver: nothing configured but the
/// defaults, nothing open, nothing read, no error.
pub open spec fn initial_model() -> DriverModel {
    DriverModel {
        file_open: false,
        readable: false,
        directory: Seq::empty(),
        file_name: Seq::empty(),
        path: Seq::empty(),
        chunk_size: 32768,
        buffered: true,
        persistent: false,
        debug: false,
        carry: Seq::empty(),
        history: Seq::empty(),
        chunk_text: None,
        content: None,
        report: Seq::empty(),
        err_msg: Seq::empty(),
        err: None,
        cycle_err: false,
    }
}

/// One entry of the message log: the path, what failed, and the reported
/// detail when there is one.
pub open spec fn error_note(path: Seq<char>, text: Seq<char>, detail: Option<Seq<char>>) -> Seq<
    char,
> {
    let base = "File '"@ + path + "': "@ + text + "\n"@;
    match detail {
        Some(d) => base + "Message: "@ + d + "\n"@,
        None => base,
    }
}

/// The report line written when a file is opened with debugging on.
pub open spec fn open_note(path: Seq<char>) -> Seq<char> {
    "File '"@ + path + "': opened\n"@
}

/// Transition for an open attempt that succeeded: a no-op on an already open
/// driver, otherwise the handle becomes open and readable.
pub open spec fn open_opened_spec(m: DriverModel) -> (DriverModel, bool) {
    if m.file_open {
        (m, true)
    } else {
        (
            DriverModel {
                file_open: true,
                readable: true,
                report: if m.debug {
                    m.report + open_note(m.path)
                } else {
                    m.report
                },
                ..m
            },
            true,
        )
    }
}

/// Transition for an open attempt on a path that does not exist: no handle
/// is created and `NotFound` is recorded.
pub open spec fn open_not_found_spec(m: DriverModel) -> (DriverModel, bool) {
    if m.file_open {
        (m, true)
    } else {
        (
            DriverModel {
                err: Some(ErrorKind::NotFound),
                err_msg: m.err_msg + error_note(
                    m.path,
                    "Open Read failed! The file does not exist."@,
                    None,
                ),
                ..m
            },
            false,
        )
    }
}

/// Transition for an open attempt the operating system refused: no handle is
/// created and `OpenFailed` is recorded with the reported detail.
pub open spec fn open_failed_spec(m: DriverModel, detail: Seq<char>) -> (DriverModel, bool) {
    if m.file_open {
        (m, true)
    } else {
        (
            DriverModel {
                err: Some(ErrorKind::OpenFailed),
                err_msg: m.err_msg + error_note(m.path, "Open Read failed!"@, Some(detail)),
                ..m
            },
            false,
        )
    }
}

/// Transition for a close: a no-op success when nothing is open; otherwise
/// the handle is always released, and a flush failure (`failure` holds its
/// detail) is recorded as `SyncFailed` and reported as `false`.
pub open spec fn close_spec(m: DriverModel, failure: Option<Seq<char>>) -> (DriverModel, bool) {
    if !m.file_open {
        (m, true)
    } else {
        let m1 = DriverModel { file_open: false, readable: false, ..m };
        match failure {
            None => (m1, true),
            Some(d) => (
                DriverModel {
                    err: Some(ErrorKind::SyncFailed),
                    err_msg: m.err_msg + error_note(m.path, "Write to disk failed!"@, Some(d)),
                    ..m1
                },
                false,
            ),
        }
    }
}

/// Transition shared by the end-of-stream cases of a streaming read (a
/// zero-length read): the latest chunk becomes empty and the stream ends.
pub open spec fn stream_end_spec(m: DriverModel) -> (DriverModel, bool) {
    (DriverModel { chunk_text: Some(Seq::empty()), ..m }, false)
}

/// Transition for a streaming read whose physical read returned bytes.  The
/// carry tail is prepended, the longest valid prefix becomes the latest
/// chunk (and enters the history when buffering is on), and the remainder
/// becomes the new carry tail; a remainder of more than three bytes is
/// corrupt input and records `InvalidEncoding`.  The call reports `true`
/// exactly when bytes arrived, no error state is held, and the stream is
/// configured as persistent.
pub open spec fn stream_data_spec(m: DriverModel, data: Seq<u8>) -> (DriverModel, bool) {
    if data.len() == 0 {
        stream_end_spec(m)
    } else {
        let c = m.carry + data;
        let p = utf8_prefix_len(c);
        let decoded = c.subrange(0, p);
        let hist = if m.buffered {
            m.history.push(decoded)
        } else {
            m.history
        };
        if c.len() - p <= 3 {
            (
                DriverModel {
                    chunk_text: Some(decoded),
                    carry: c.subrange(p, c.len() as int),
                    history: hist,
                    ..m
                },
                m.persistent && m.err is None,
            )
        } else {
            (
                DriverModel {
                    chunk_text: Some(decoded),
                    carry: Seq::empty(),
                    history: hist,
                    err: Some(ErrorKind::InvalidEncoding),
                    err_msg: m.err_msg + error_note(
                        m.path,
                        "Read failed! Content is not valid UTF-8 text."@,
                        None,
                    ),
                    ..m
                },
                false,
            )
        }
    }
}

/// Transition for a streaming read interrupted by a retryable signal: the
/// interruption is not an error and consumes no chunk slot.  The driver is
/// left exactly as it was, the latest chunk included, and the result asks
/// the caller to retry the physical read in place, whatever the
/// configuration — as the batch loop does.
pub open spec fn stream_interrupted_spec(m: DriverModel) -> (DriverModel, bool) {
    (m, true)
}

/// Transition for a failed physical read in streaming mode: `ReadFailed` is
/// recorded and the stream ends.
pub open spec fn stream_read_failed_spec(m: DriverModel, detail: Seq<char>) -> (DriverModel, bool) {
    (
        DriverModel {
            chunk_text: Some(Seq::empty()),
            err: Some(ErrorKind::ReadFailed),
            err_msg: m.err_msg + error_note(m.path, "Read failed!"@, Some(detail)),
            ..m
        },
        false,
    )
}

/// Transition for one batch-loop read that returned bytes.  Decoding works
/// as in streaming mode, but the decoded bytes are appended to the latest
/// chunk and to the accumulated content rather than replacing the chunk.
/// The returned flag asks for another read exactly when the chunk was full.
pub open spec fn batch_data_spec(m: DriverModel, data: Seq<u8>) -> (DriverModel, bool) {
    if data.len() == 0 {
        (m, false)
    } else {
        let c = m.carry + data;
        let p = utf8_prefix_len(c);
        let decoded = c.subrange(0, p);
        let hist = if m.buffered {
            m.history.push(decoded)
        } else {
            m.history
        };
        let ct = match m.chunk_text {
            Some(b) => Some(b + decoded),
            None => None,
        };
        let co = match m.content {
            Some(b) => Some(b + decoded),
            None => None,
        };
        if c.len() - p <= 3 {
            (
                DriverModel {
                    chunk_text: ct,
                    content: co,
                    carry: c.subrange(p, c.len() as int),
                    history: hist,
                    ..m
                },
                data.len() == m.chunk_size as int,
            )
        } else {
            (
                DriverModel {
                    chunk_text: ct,
                    content: co,
                    carry: Seq::empty(),
                    history: hist,
                    err: Some(ErrorKind::InvalidEncoding),
                    cycle_err: true,
                    err_msg: m.err_msg + error_note(
                        m.path,
                        "Read failed! Content is not valid UTF-8 text."@,
                        None,
                    ),
                    ..m
                },
                false,
            )
        }
    }
}

/// Transition for a failed physical read in the batch loop: `ReadFailed` is
/// recorded, the cycle is marked failed, and the loop stops.
pub open spec fn batch_read_failed_spec(m: DriverModel, detail: Seq<char>) -> (DriverModel, bool) {
    (
        DriverModel {
            err: Some(ErrorKind::ReadFailed),
            cycle_err: true,
            err_msg: m.err_msg + error_note(m.path, "Read failed!"@, Some(detail)),
            ..m
        },
        false,
    )
}

/// Transition that ends a batch cycle.  A non-empty carry tail means the
/// file ended inside a character, which records `InvalidEncoding`; the
/// handle is then released (recording `SyncFailed` when the flush failed,
/// `failure` holding its detail), and the cycle succeeds exactly when no
/// failure was recorded during it.
pub open spec fn finish_batch_spec(m: DriverModel, failure: Option<Seq<char>>) -> (
    DriverModel,
    bool,
) {
    let m1 = if m.carry.len() > 0 {
        DriverModel {
            carry: Seq::empty(),
            err: Some(ErrorKind::InvalidEncoding),
            cycle_err: true,
            err_msg: m.err_msg + error_note(
                m.path,
                "Read failed! Content is not valid UTF-8 text."@,
                None,
            ),
            ..m
        }
    } else {
        m
    };
    let close_result = close_spec(m1, failure);
    let m2 = if close_result.1 {
        close_result.0
    } else {
        DriverModel { cycle_err: true, ..close_result.0 }
    };
    (m2, !m2.cycle_err)
}

/// Transition for taking the accumulated text: when content is held it is
/// handed out and no longer held; taking again without a new read records
/// `NoContent` and hands out empty text.
pub open spec fn take_content_spec(m: DriverModel) -> (DriverModel, Seq<char>) {
    match m.content {
        Some(b) => (DriverModel { content: None, ..m }, decode_utf8(b)),
        None => (
            DriverModel {
                err: Some(ErrorKind::NoContent),
                err_msg: m.err_msg + error_note(
                    m.path,
                    "Content access failed! No content is held."@,
                    None,
                ),
                ..m
            },
            Seq::empty(),
        ),
    }
}

/// A chunked reader of text files.
///
/// The driver holds the configured path, the open/closed state of the
/// handle, the decoding state (carry tail, chunk history, latest chunk,
/// accumulated content) and the recorded error state.  The surrounding
/// program performs the file-system calls and reports each outcome as an
/// event.
pub struct FileDriver {
    file_open: bool,
    readable: bool,
    directory: String,
    file_name: String,
    path: String,
    chunk_size: u16,
    buffered: bool,
    persistent: bool,
    debug: bool,
    carry: Vec<u8>,
    history: Vec<Vec<u8>>,
    chunk_text: Option<Vec<u8>>,
    content: Option<Vec<u8>>,
    report: String,
    err_msg: String,
    err: Option<ErrorKind>,
    cycle_err: bool,
}

impl View for FileDriver {
    type V = DriverModel;

    closed spec fn view(&self) -> DriverModel {
        DriverModel {
            file_open: self.file_open,
            readable: self.readable,
            directory: self.directory@,
            file_name: self.file_name@,
            path: self.path@,
            chunk_size: self.chunk_size,
            buffered: self.buffered,
            persistent: self.persistent,
            debug: self.debug,
            carry: self.carry@,
            history: self.history.deep_view(),
            chunk_text: match self.chunk_text {
                Some(ref b) => Some(b@),
                None => None,
            },
            content: match self.content {
                Some(ref b) => Some(b@),
                None => None,
            },
            report: self.report@,
            err_msg: self.err_msg@,
            err: self.err,
            cycle_err: self.cycle_err,
        }
    }
}

/// Copy of a byte vector.
fn clone_bytes(v: &Vec<u8>) -> (r: Vec<u8>)
    ensures
        r@ == v@,
{
    let mut r: Vec<u8> = Vec::new();
    let mut i: usize = 0;
    while i < v.len()
        invariant
            0 <= i <= v.len(),
            r@ =~= v@.subrange(0, i as int),
        decreases v.len() - i,
    {
        r.push(v[i]);
        i = i + 1;
    }
    proof {
        assert(v@.subrange(0, v@.len() as int) =~= v@);
    }
    r
}

impl Default for FileDriver {
    /// Same as [`FileDriver::new`].
    fn default() -> (d: FileDriver)
        ensures
            d@ == initial_model(),
            d@.wf(),
    {
        FileDriver::new()
    }
}

impl FileDriver {
    /// A driver with no path configured and the default configuration.
    pub fn new() -> (d: FileDriver)
        ensures
            d@ == initial_model(),
            d@.wf(),
    {
        let d = FileDriver {
            file_open: false,
            readable: false,
            directory: String::new(),
            file_name: String::new(),
            path: String::new(),
            chunk_size: 32768,
            buffered: true,
            persistent: false,
            debug: false,
            carry: Vec::new(),
            history: Vec::new(),
            chunk_text: None,
            content: None,
            report: String::new(),
            err_msg: String::new(),
            err: None,
            cycle_err: false,
        };
        proof {
            assert(d@ =~~= initial_model());
        }
        d
    }

    /// A driver configured with a directory only; the directory is
    /// normalized to end in `/`.
    pub fn from_directory_name(directory_name: &str) -> (d: FileDriver)
        ensures
            d@ == (DriverModel { directory: normalized_dir(directory_name@), ..initial_model() }),
            d@.wf(),
    {
        let mut d = FileDriver::new();
        d.directory = normalize_directory(directory_name);
        proof {
            assert(d@ =~~= (DriverModel {
                directory: normalized_dir(directory_name@),
                ..initial_model()
            }));
        }
        d
    }

    /// A driver configured with a directory and a file name; the path is
    /// their concatenation, the directory normalized to end in `/`.
    pub fn from_file_name(directory_name: &str, file_name: &str) -> (d: FileDriver)
        ensures
            d@ == (DriverModel {
                directory: normalized_dir(directory_name@),
                file_name: file_name@,
                path: normalized_dir(directory_name@) + file_name@,
                ..initial_model()
            }),
            d@.wf(),
    {
        let mut d = FileDriver::new();
        d.directory = normalize_directory(directory_name);
        d.file_name = file_name.to_owned();
        d.path = join_path(d.directory.as_str(), file_name);
        proof {
            assert(d@ =~~= (DriverModel {
                directory: normalized_dir(directory_name@),
                file_name: file_name@,
                path: normalized_dir(directory_name@) + file_name@,
                ..initial_model()
            }));
        }
        d
    }

    /// A driver configured with a whole path; the directory and file-name
    /// parts are derived by splitting at the last `/`.
    pub fn from_path_name(path_name: &str) -> (d: FileDriver)
        ensures
            ({
                let i = last_slash(path_name@);
                d@ == (DriverModel {
                    path: path_name@,
                    directory: if i >= 0 {
                        path_name@.subrange(0, i + 1)
                    } else {
                        Seq::empty()
                    },
                    file_name: if i >= 0 {
                        path_name@.subrange(i + 1, path_name@.len() as int)
                    } else {
                        path_name@
                    },
                    ..initial_model()
                })
            }),
            d@.wf(),
    {
        let mut d = FileDriver::new();
        d.path = path_name.to_owned();
        let (dir, file) = split_path(path_name);
        d.directory = dir;
        d.file_name = file;
        proof {
            lemma_last_slash_bounds(path_name@);
            let i = last_slash(path_name@);
            assert(d@ =~~= (DriverModel {
                path: path_name@,
                directory: if i >= 0 {
                    path_name@.subrange(0, i + 1)
                } else {
                    Seq::empty()
                },
                file_name: if i >= 0 {
                    path_name@.subrange(i + 1, path_name@.len() as int)
                } else {
                    path_name@
                },
                ..initial_model()
            }));
        }
        d
    }

    /// Record a failure: the kind becomes the current error and a note is
    /// appended to the message log.
    fn record_error(&mut self, kind: ErrorKind, text: &str, detail: Option<String>)
        ensures
            final(self)@ == (DriverModel {
                err: Some(kind),
                err_msg: old(self)@.err_msg + error_note(
                    old(self)@.path,
                    text@,
                    match detail {
                        Some(ref d) => Some(d@),
                        None => None,
                    },
                ),
                ..old(self)@
            }),
    {
        let path = self.path.clone();
        self.err = Some(kind);
        self.err_msg.append("File '");
        self.err_msg.append(path.as_str());
        self.err_msg.append("': ");
        self.err_msg.append(text);
        self.err_msg.append("\n");
        match detail {
            Some(d) => {
                self.err_msg.append("Message: ");
                self.err_msg.append(d.as_str());
                self.err_msg.append("\n");
            },
            None => {},
        }
        proof {
            assert(final(self)@ =~~= (DriverModel {
                err: Some(kind),
                err_msg: old(self)@.err_msg + error_note(
                    old(self)@.path,
                    text@,
                    match detail {
                        Some(ref d) => Some(d@),
                        None => None,
                    },
                ),
                ..old(self)@
            }));
        }
    }

    /// One decoding step over the carry tail and freshly read bytes.  The
    /// longest valid prefix is the decoded output; it enters the history
    /// when buffering is on, replaces the latest chunk in streaming mode
    /// (`accumulate` false) and extends the latest chunk and the content in
    /// batch mode (`accumulate` true).  Reports whether the remaining suffix
    /// is short enough (at most three bytes) to be a boundary split; a
    /// longer suffix is discarded and the caller records the failure.
    fn absorb(&mut self, data: Vec<u8>, accumulate: bool) -> (ok: bool)
        requires
            old(self)@.wf(),
        ensures
            final(self)@.wf(),
            ({
                let c = old(self)@.carry + data@;
                let p = utf8_prefix_len(c);
                let decoded = c.subrange(0, p);
                &&& ok == (c.len() - p <= 3)
                &&& final(self)@ == (DriverModel {
                    carry: if ok {
                        c.subrange(p, c.len() as int)
                    } else {
                        Seq::empty()
                    },
                    history: if old(self)@.buffered {
                        old(self)@.history.push(decoded)
                    } else {
                        old(self)@.history
                    },
                    chunk_text: if accumulate {
                        match old(self)@.chunk_text {
                            Some(b) => Some(b + decoded),
                            None => None,
                        }
                    } else {
                        Some(decoded)
                    },
                    content: if accumulate {
                        match old(self)@.content {
                            Some(b) => Some(b + decoded),
                            None => None,
                        }
                    } else {
                        old(self)@.content
                    },
                    ..old(self)@
                })
            }),
    {
        let ghost c = old(self)@.carry + data@;
        let mut combined: Vec<u8> = Vec::new();
        core::mem::swap(&mut combined, &mut self.carry);
        let mut fresh = data;
        combined.append(&mut fresh);
        proof {
            assert(combined@ =~= c);
        }
        let p = utf8_prefix_scan(&combined);
        let tail = combined.split_off(p);
        let decoded = combined;
        proof {
            lemma_prefix_valid(c);
            assert(decoded@ =~= c.subrange(0, utf8_prefix_len(c)));
            assert(valid_utf8(decoded@));
        }
        if self.buffered {
            let copy = clone_bytes(&decoded);
            self.history.push(copy);
        }
        if accumulate {
            let mut extra = clone_bytes(&decoded);
            match &mut self.chunk_text {
                Some(b) => {
                    proof {
                        broadcast use valid_utf8_concat;

                    }
                    b.append(&mut extra);
                },
                None => {},
            }
            let mut extra2 = clone_bytes(&decoded);
            match &mut self.content {
                Some(b) => {
                    proof {
                        broadcast use valid_utf8_concat;

                    }
                    b.append(&mut extra2);
                },
                None => {},
            }
        } else {
            self.chunk_text = Some(decoded);
        }
        let ok = tail.len() <= 3;
        if ok {
            self.carry = tail;
        }
        proof {
            let p_ = utf8_prefix_len(c);
            let decoded_ = c.subrange(0, p_);
            lemma_prefix_len_bounds(c);
            assert(final(self)@.history =~~= if old(self)@.buffered {
                old(self)@.history.push(decoded_)
            } else {
                old(self)@.history
            });
            assert(final(self)@ =~~= (DriverModel {
                carry: if ok {
                    c.subrange(p_, c.len() as int)
                } else {
                    Seq::empty()
                },
                history: if old(self)@.buffered {
                    old(self)@.history.push(decoded_)
                } else {
                    old(self)@.history
                },
                chunk_text: if accumulate {
                    match old(self)@.chunk_text {
                        Some(b) => Some(b + decoded_),
                        None => None,
                    }
                } else {
                    Some(decoded_)
                },
                content: if accumulate {
                    match old(self)@.content {
                        Some(b) => Some(b + decoded_),
                        None => None,
                    }
                } else {
                    old(self)@.content
                },
                ..old(self)@
            }));
            broadcast use valid_utf8_concat;

            assert(final(self)@.wf());
        }
        ok
    }
}

impl FileDriver {
    /// Set the directory part (normalized to end in `/`), rebuild the path
    /// from it and the file name, and release any held handle, since it no
    /// longer belongs to the configured file.  The caller flushes and closes
    /// the real handle before changing the target.
    pub fn set_directory_name(&mut self, directory_name: &str)
        ensures
            final(self)@ == (DriverModel {
                directory: normalized_dir(directory_name@),
                path: normalized_dir(directory_name@) + old(self)@.file_name,
                file_open: false,
                readable: false,
                ..old(self)@
            }),
    {
        self.directory = normalize_directory(directory_name);
        self.path = join_path(self.directory.as_str(), self.file_name.as_str());
        self.file_open = false;
        self.readable = false;
        proof {
            assert(final(self)@ =~~= (DriverModel {
                directory: normalized_dir(directory_name@),
                path: normalized_dir(directory_name@) + old(self)@.file_name,
                file_open: false,
                readable: false,
                ..old(self)@
            }));
        }
    }

    /// Set the file-name part, rebuild the path from the directory and it,
    /// and release any held handle.
    pub fn set_file_name(&mut self, file_name: &str)
        ensures
            final(self)@ == (DriverModel {
                file_name: file_name@,
                path: old(self)@.directory + file_name@,
                file_open: false,
                readable: false,
                ..old(self)@
            }),
    {
        self.file_name = file_name.to_owned();
        self.path = join_path(self.directory.as_str(), file_name);
        self.file_open = false;
        self.readable = false;
        proof {
            assert(final(self)@ =~~= (DriverModel {
                file_name: file_name@,
                path: old(self)@.directory + file_name@,
                file_open: false,
                readable: false,
                ..old(self)@
            }));
        }
    }

    /// Set the whole path, derive the directory and file-name parts by
    /// splitting at the last `/`, and release any held handle.
    pub fn set_path_name(&mut self, path_name: &str)
        ensures
            ({
                let i = last_slash(path_name@);
                final(self)@ == (DriverModel {
                    path: path_name@,
                    directory: if i >= 0 {
                        path_name@.subrange(0, i + 1)
                    } else {
                        Seq::empty()
                    },
                    file_name: if i >= 0 {
                        path_name@.subrange(i + 1, path_name@.len() as int)
                    } else {
                        path_name@
                    },
                    file_open: false,
                    readable: false,
                    ..old(self)@
                })
            }),
    {
        self.path = path_name.to_owned();
        let (dir, file) = split_path(path_name);
        self.directory = dir;
        self.file_name = file;
        self.file_open = false;
        self.readable = false;
        proof {
            lemma_last_slash_bounds(path_name@);
            let i = last_slash(path_name@);
            assert(final(self)@ =~~= (DriverModel {
                path: path_name@,
                directory: if i >= 0 {
                    path_name@.subrange(0, i + 1)
                } else {
                    Seq::empty()
                },
                file_name: if i >= 0 {
                    path_name@.subrange(i + 1, path_name@.len() as int)
                } else {
                    path_name@
                },
                file_open: false,
                readable: false,
                ..old(self)@
            }));
        }
    }

    /// Set the number of bytes per physical read.
    pub fn set_chunk_size(&mut self, chunk_size: u16)
        ensures
            final(self)@ == (DriverModel { chunk_size: chunk_size, ..old(self)@ }),
    {
        self.chunk_size = chunk_size;
        proof {
            assert(final(self)@ =~~= (DriverModel { chunk_size: chunk_size, ..old(self)@ }));
        }
    }

    /// Switch the retention of raw chunks for batch joining on or off.
    pub fn set_buffered(&mut self, buffered: bool)
        ensures
            final(self)@ == (DriverModel { buffered: buffered, ..old(self)@ }),
    {
        self.buffered = buffered;
        proof {
            assert(final(self)@ =~~= (DriverModel { buffered: buffered, ..old(self)@ }));
        }
    }

    /// Switch whether a successful streaming read keeps the handle open.
    pub fn set_persistent(&mut self, persistent: bool)
        ensures
            final(self)@ == (DriverModel { persistent: persistent, ..old(self)@ }),
    {
        self.persistent = persistent;
        proof {
            assert(final(self)@ =~~= (DriverModel { persistent: persistent, ..old(self)@ }));
        }
    }

    /// Switch diagnostic report lines on or off.
    pub fn set_debug(&mut self, debug: bool)
        ensures
            final(self)@ == (DriverModel { debug: debug, ..old(self)@ }),
    {
        self.debug = debug;
        proof {
            assert(final(self)@ =~~= (DriverModel { debug: debug, ..old(self)@ }));
        }
    }

    /// Whether a file handle is currently held.
    pub fn is_open(&self) -> (r: bool)
        ensures
            r == self@.file_open,
    {
        self.file_open
    }

    /// Whether a held handle is open for reading; false whenever no handle
    /// is held.
    pub fn is_readable(&self) -> (r: bool)
        ensures
            r == (self@.file_open && self@.readable),
    {
        self.file_open && self.readable
    }

    /// Whether the configured file exists.  A held handle proves existence;
    /// otherwise the caller's path check (`path_on_disk`) answers.
    pub fn file_exists(&self, path_on_disk: bool) -> (r: bool)
        ensures
            r == (self@.file_open || path_on_disk),
    {
        if self.file_open {
            true
        } else {
            path_on_disk
        }
    }

    /// The directory part of the configured path.
    pub fn get_directory_name(&self) -> (r: &str)
        ensures
            r@ == self@.directory,
    {
        self.directory.as_str()
    }

    /// The file-name part of the configured path.
    pub fn get_file_name(&self) -> (r: &str)
        ensures
            r@ == self@.file_name,
    {
        self.file_name.as_str()
    }

    /// The configured path.
    pub fn get_path_name(&self) -> (r: &str)
        ensures
            r@ == self@.path,
    {
        self.path.as_str()
    }

    /// The diagnostic report text.
    pub fn get_report_string(&self) -> (r: &str)
        ensures
            r@ == self@.report,
    {
        self.report.as_str()
    }

    /// The message log of recorded failures.
    pub fn get_error_string(&self) -> (r: &str)
        ensures
            r@ == self@.err_msg,
    {
        self.err_msg.as_str()
    }

    /// The numeric code of the recorded error state; 0 means no error.
    pub fn get_error_code(&self) -> (r: i8)
        ensures
            r == code_of(self@.err),
    {
        match self.err {
            Some(kind) => kind.code(),
            None => 0,
        }
    }

    /// The kind of the recorded error state, when one is held.
    pub fn get_error_kind(&self) -> (r: Option<ErrorKind>)
        ensures
            r == self@.err,
    {
        self.err
    }

    /// Apply the outcome of an open attempt.  A no-op success when a handle
    /// is already held; otherwise the handle becomes open and readable on
    /// `Opened`, and `NotFound` or `OpenFailed` is recorded on failure with
    /// no handle created.  Reports whether a handle is held afterwards.
    pub fn open_for_read(&mut self, ev: OpenEvent) -> (r: bool)
        requires
            old(self)@.wf(),
        ensures
            final(self)@.wf(),
            match ev {
                OpenEvent::Opened => (final(self)@, r) == open_opened_spec(old(self)@),
                OpenEvent::NotFound => (final(self)@, r) == open_not_found_spec(old(self)@),
                OpenEvent::OpenFailed(s) => (final(self)@, r) == open_failed_spec(old(self)@, s@),
            },
            r == final(self)@.file_open,
    {
        if self.file_open {
            return true;
        }
        match ev {
            OpenEvent::Opened => {
                self.file_open = true;
                self.readable = true;
                if self.debug {
                    let path = self.path.clone();
                    self.report.append("File '");
                    self.report.append(path.as_str());
                    self.report.append("': opened\n");
                    proof {
                        assert(final(self)@.report =~= old(self)@.report + open_note(
                            old(self)@.path,
                        ));
                    }
                }
                proof {
                    assert(final(self)@ =~~= open_opened_spec(old(self)@).0);
                }
                true
            },
            OpenEvent::NotFound => {
                self.record_error(
                    ErrorKind::NotFound,
                    "Open Read failed! The file does not exist.",
                    None,
                );
                proof {
                    assert(final(self)@ =~~= open_not_found_spec(old(self)@).0);
                }
                false
            },
            OpenEvent::OpenFailed(s) => {
                let ghost sv = s@;
                self.record_error(ErrorKind::OpenFailed, "Open Read failed!", Some(s));
                proof {
                    assert(final(self)@ =~~= open_failed_spec(old(self)@, sv).0);
                }
                false
            },
        }
    }

    /// Release the handle.  A no-op success when nothing is open.  The
    /// caller flushes the real handle to stable storage first and reports
    /// the outcome; a flush failure is recorded as `SyncFailed` and reported
    /// as `false`, but the handle is released all the same.
    pub fn close(&mut self, ev: SyncEvent) -> (r: bool)
        requires
            old(self)@.wf(),
        ensures
            final(self)@.wf(),
            match ev {
                SyncEvent::Synced => (final(self)@, r) == close_spec(old(self)@, None),
                SyncEvent::SyncFailed(s) => (final(self)@, r) == close_spec(old(self)@, Some(s@)),
            },
            final(self)@.file_open == false,
    {
        if !self.file_open {
            let _ = ev;
            true
        } else {
            self.file_open = false;
            self.readable = false;
            match ev {
                SyncEvent::Synced => {
                    proof {
                        assert(final(self)@ =~~= close_spec(old(self)@, None).0);
                    }
                    true
                },
                SyncEvent::SyncFailed(s) => {
                    let ghost sv = s@;
                    self.record_error(ErrorKind::SyncFailed, "Write to disk failed!", Some(s));
                    proof {
                        assert(final(self)@ =~~= close_spec(old(self)@, Some(sv)).0);
                    }
                    false
                },
            }
        }
    }

    /// Release the handle, discarding the close's success report.
    pub fn free_resources(&mut self, ev: SyncEvent)
        requires
            old(self)@.wf(),
        ensures
            final(self)@.wf(),
            match ev {
                SyncEvent::Synced => final(self)@ == close_spec(old(self)@, None).0,
                SyncEvent::SyncFailed(s) => final(self)@ == close_spec(old(self)@, Some(s@)).0,
            },
            final(self)@.file_open == false,
    {
        let _ = self.close(ev);
    }

    /// Reset the decoding state for a fresh streaming cycle: the carry tail
    /// is cleared, and when buffering is on the history and the accumulated
    /// content are replaced by empty ones.  Called when a streaming read
    /// (re)opens the file.
    pub fn start_stream_cycle(&mut self)
        requires
            old(self)@.wf(),
        ensures
            final(self)@.wf(),
            final(self)@ == (DriverModel {
                carry: Seq::empty(),
                history: if old(self)@.buffered {
                    Seq::empty()
                } else {
                    old(self)@.history
                },
                content: if old(self)@.buffered {
                    Some(Seq::empty())
                } else {
                    old(self)@.content
                },
                ..old(self)@
            }),
    {
        self.carry = Vec::new();
        if self.buffered {
            self.history = Vec::new();
            self.content = Some(Vec::new());
        }
        proof {
            assert(final(self)@ =~~= (DriverModel {
                carry: Seq::empty(),
                history: if old(self)@.buffered {
                    Seq::empty()
                } else {
                    old(self)@.history
                },
                content: if old(self)@.buffered {
                    Some(Seq::empty())
                } else {
                    old(self)@.content
                },
                ..old(self)@
            }));
        }
    }

    /// Consume the outcome of one streaming physical read.  Reports `true`
    /// exactly when the stream continues: bytes arrived and were decoded, no
    /// error state is held, and the stream is configured as persistent.  A
    /// retryable interruption changes nothing and reports `true` so that the
    /// caller repeats the physical read in place.  On `false` the caller
    /// releases the handle through [`FileDriver::close`].
    pub fn stream_chunk(&mut self, ev: ReadEvent) -> (continues: bool)
        requires
            old(self)@.wf(),
            old(self)@.readable,
        ensures
            final(self)@.wf(),
            match ev {
                ReadEvent::Data(buf) => (final(self)@, continues) == stream_data_spec(
                    old(self)@,
                    buf@,
                ),
                ReadEvent::Eof => (final(self)@, continues) == stream_end_spec(old(self)@),
                ReadEvent::Interrupted => (final(self)@, continues) == stream_interrupted_spec(
                    old(self)@,
                ),
                ReadEvent::ReadFailed(s) => (final(self)@, continues) == stream_read_failed_spec(
                    old(self)@,
                    s@,
                ),
            },
    {
        match ev {
            ReadEvent::Data(buf) => {
                if buf.len() == 0 {
                    self.chunk_text = Some(Vec::new());
                    proof {
                        assert(final(self)@ =~~= stream_end_spec(old(self)@).0);
                    }
                    return false;
                }
                let ghost data = buf@;
                let ok = self.absorb(buf, false);
                if ok {
                    proof {
                        assert(final(self)@ =~~= stream_data_spec(old(self)@, data).0);
                    }
                    self.persistent && self.err.is_none()
                } else {
                    self.record_error(
                        ErrorKind::InvalidEncoding,
                        "Read failed! Content is not valid UTF-8 text.",
                        None,
                    );
                    proof {
                        assert(final(self)@ =~~= stream_data_spec(old(self)@, data).0);
                    }
                    false
                }
            },
            ReadEvent::Eof => {
                self.chunk_text = Some(Vec::new());
                proof {
                    assert(final(self)@ =~~= stream_end_spec(old(self)@).0);
                }
                false
            },
            ReadEvent::Interrupted => true,
            ReadEvent::ReadFailed(s) => {
                self.chunk_text = Some(Vec::new());
                let ghost sv = s@;
                self.record_error(ErrorKind::ReadFailed, "Read failed!", Some(s));
                proof {
                    assert(final(self)@ =~~= stream_read_failed_spec(old(self)@, sv).0);
                }
                false
            },
        }
    }

    /// Force buffering on for a batch read.
    pub fn begin_batch(&mut self)
        ensures
            final(self)@ == (DriverModel { buffered: true, ..old(self)@ }),
    {
        self.buffered = true;
        proof {
            assert(final(self)@ =~~= (DriverModel { buffered: true, ..old(self)@ }));
        }
    }

    /// Reset the decoding state at the start of a batch cycle: history,
    /// content and latest chunk become empty, the carry tail is cleared and
    /// the cycle is marked clean.
    pub fn start_batch_cycle(&mut self)
        requires
            old(self)@.wf(),
        ensures
            final(self)@.wf(),
            final(self)@ == (DriverModel {
                carry: Seq::empty(),
                history: Seq::empty(),
                content: Some(Seq::empty()),
                chunk_text: Some(Seq::empty()),
                cycle_err: false,
                ..old(self)@
            }),
    {
        self.carry = Vec::new();
        self.history = Vec::new();
        self.content = Some(Vec::new());
        self.chunk_text = Some(Vec::new());
        self.cycle_err = false;
        proof {
            assert(final(self)@ =~~= (DriverModel {
                carry: Seq::empty(),
                history: Seq::empty(),
                content: Some(Seq::empty()),
                chunk_text: Some(Seq::empty()),
                cycle_err: false,
                ..old(self)@
            }));
        }
    }

    /// Consume the outcome of one batch-loop physical read.  Reports `true`
    /// exactly when the loop should read again: a full chunk arrived and
    /// decoded cleanly, or the read was merely interrupted and is retried.
    pub fn batch_chunk(&mut self, ev: ReadEvent) -> (more: bool)
        requires
            old(self)@.wf(),
            old(self)@.readable,
        ensures
            final(self)@.wf(),
            match ev {
                ReadEvent::Data(buf) => (final(self)@, more) == batch_data_spec(old(self)@, buf@),
                ReadEvent::Eof => (final(self)@, more) == (old(self)@, false),
                ReadEvent::Interrupted => (final(self)@, more) == (old(self)@, true),
                ReadEvent::ReadFailed(s) => (final(self)@, more) == batch_read_failed_spec(
                    old(self)@,
                    s@,
                ),
            },
    {
        match ev {
            ReadEvent::Data(buf) => {
                if buf.len() == 0 {
                    return false;
                }
                let ghost data = buf@;
                let full = buf.len() == self.chunk_size as usize;
                let ok = self.absorb(buf, true);
                if ok {
                    proof {
                        assert(final(self)@ =~~= batch_data_spec(old(self)@, data).0);
                    }
                    full
                } else {
                    self.cycle_err = true;
                    self.record_error(
                        ErrorKind::InvalidEncoding,
                        "Read failed! Content is not valid UTF-8 text.",
                        None,
                    );
                    proof {
                        assert(final(self)@ =~~= batch_data_spec(old(self)@, data).0);
                        broadcast use valid_utf8_concat;

                        lemma_prefix_valid(old(self)@.carry + data);
                        let hist = final(self)@.history;
                        assert forall|i: int| 0 <= i < hist.len() implies valid_utf8(
                            #[trigger] hist[i],
                        ) by {
                            if i < old(self)@.history.len() {
                                assert(valid_utf8(old(self)@.history[i]));
                            }
                        }
                        assert(final(self)@.wf());
                    }
                    false
                }
            },
            ReadEvent::Eof => false,
            ReadEvent::Interrupted => true,
            ReadEvent::ReadFailed(s) => {
                self.cycle_err = true;
                let ghost sv = s@;
                self.record_error(ErrorKind::ReadFailed, "Read failed!", Some(s));
                proof {
                    assert(final(self)@ =~~= batch_read_failed_spec(old(self)@, sv).0);
                }
                false
            },
        }
    }

    /// End a batch cycle: a carry tail left over means the file ended inside
    /// a character and records `InvalidEncoding`; the handle is released
    /// with the reported flush outcome; reports `true` exactly when no
    /// failure was recorded during the cycle.
    pub fn finish_batch(&mut self, ev: SyncEvent) -> (success: bool)
        requires
            old(self)@.wf(),
        ensures
            final(self)@.wf(),
            match ev {
                SyncEvent::Synced => (final(self)@, success) == finish_batch_spec(
                    old(self)@,
                    None,
                ),
                SyncEvent::SyncFailed(s) => (final(self)@, success) == finish_batch_spec(
                    old(self)@,
                    Some(s@),
                ),
            },
            final(self)@.file_open == false,
    {
        if self.carry.len() > 0 {
            self.carry = Vec::new();
            self.cycle_err = true;
            self.record_error(
                ErrorKind::InvalidEncoding,
                "Read failed! Content is not valid UTF-8 text.",
                None,
            );
        }
        let ghost failure: Option<Seq<char>> = match ev {
            SyncEvent::Synced => None,
            SyncEvent::SyncFailed(ref s) => Some(s@),
        };
        let closed_ok = self.close(ev);
        if !closed_ok {
            self.cycle_err = true;
        }
        proof {
            assert(final(self)@ =~~= finish_batch_spec(old(self)@, failure).0);
        }
        !self.cycle_err
    }

    /// The accumulated text of the last batch read, or empty text when none
    /// is held.  Non-consuming.
    pub fn get_content(&self) -> (r: String)
        requires
            self@.wf(),
        ensures
            r@ == match self@.content {
                Some(b) => decode_utf8(b),
                None => Seq::<char>::empty(),
            },
    {
        match &self.content {
            Some(b) => {
                let bytes = clone_bytes(b);
                string_from_utf8(bytes)
            },
            None => String::new(),
        }
    }

    /// The text decoded from the most recent physical read, or empty text
    /// when no read cycle has started.  Non-consuming.
    pub fn get_chunk(&self) -> (r: String)
        requires
            self@.wf(),
        ensures
            r@ == match self@.chunk_text {
                Some(b) => decode_utf8(b),
                None => Seq::<char>::empty(),
            },
    {
        match &self.chunk_text {
            Some(b) => {
                let bytes = clone_bytes(b);
                string_from_utf8(bytes)
            },
            None => String::new(),
        }
    }

    /// Take the accumulated text, leaving none held.  Taking again without
    /// an intervening batch read records `NoContent` and hands out empty
    /// text.
    pub fn take_content(&mut self) -> (r: String)
        requires
            old(self)@.wf(),
        ensures
            final(self)@.wf(),
            (final(self)@, r@) == take_content_spec(old(self)@),
    {
        match self.content.take() {
            Some(b) => {
                proof {
                    assert(final(self)@ =~~= take_content_spec(old(self)@).0);
                }
                string_from_utf8(b)
            },
            None => {
                self.record_error(
                    ErrorKind::NoContent,
                    "Content access failed! No content is held.",
                    None,
                );
                proof {
                    assert(final(self)@ =~~= take_content_spec(old(self)@).0);
                }
                String::new()
            },
        }
    }
}

/// Relies on `String::from_utf8`: on bytes that are a valid UTF-8 encoding
/// it returns `Ok` with the string that decodes them.
#[verifier::external_body]
fn string_from_utf8(bytes: Vec<u8>) -> (r: String)
    requires
        valid_utf8(bytes@),
    ensures
        r@ == decode_utf8(bytes@),
{
    match String::from_utf8(bytes) {
        Ok(s) => s,
        Err(_) => String::new(),
    }
}

/// The driver state after a sequence of streaming reads, one chunk each.
pub open spec fn drain_state(m: DriverModel, chunks: Seq<Seq<u8>>) -> DriverModel
    decreases chunks.len(),
{
    if chunks.len() == 0 {
        m
    } else {
        drain_state(stream_data_spec(m, chunks.first()).0, chunks.drop_first())
    }
}

/// True when every streaming read in the sequence reports that the stream
/// continues.
pub open spec fn drain_continues(m: DriverModel, chunks: Seq<Seq<u8>>) -> bool
    decreases chunks.len(),
{
    chunks.len() == 0 || (stream_data_spec(m, chunks.first()).1 && drain_continues(
        stream_data_spec(m, chunks.first()).0,
        chunks.drop_first(),
    ))
}

/// The driver state after a sequence of batch-loop reads, one chunk each.
pub open spec fn batch_state(m: DriverModel, chunks: Seq<Seq<u8>>) -> DriverModel
    decreases chunks.len(),
{
    if chunks.len() == 0 {
        m
    } else {
        batch_state(batch_data_spec(m, chunks.first()).0, chunks.drop_first())
    }
}

/// Law: closing is idempotent.  Whatever the first close did and whatever
/// flush outcome the second is given, the second close changes nothing and
/// reports success.
pub proof fn lemma_close_idempotent(
    m: DriverModel,
    failure1: Option<Seq<char>>,
    failure2: Option<Seq<char>>,
)
    ensures
        ({
            let first = close_spec(m, failure1);
            let second = close_spec(first.0, failure2);
            second.0 == first.0 && second.1 == true
        }),
{
}

/// Law: on a non-persistent configuration every completed streaming read
/// reports that the stream ends, whatever the physical read returned, and
/// the close that follows leaves no handle open.  A retryable interruption
/// is no completed read: it leaves the driver untouched and is retried.
pub proof fn lemma_non_persistent_stream(m: DriverModel, data: Seq<u8>, detail: Seq<char>)
    requires
        !m.persistent,
    ensures
        stream_data_spec(m, data).1 == false,
        stream_end_spec(m).1 == false,
        stream_read_failed_spec(m, detail).1 == false,
        stream_interrupted_spec(m).0 == m,
        close_spec(stream_data_spec(m, data).0, None).0.file_open == false,
        close_spec(stream_data_spec(m, data).0, Some(detail)).0.file_open == false,
{
}

/// Law: a retryable interruption behaves as if it had not happened.  In
/// streaming mode, as in the batch loop, the driver is left exactly as it
/// was and the caller is asked to attempt the read again, whatever the
/// configuration or error state.
pub proof fn lemma_interruption_transparent(m: DriverModel)
    ensures
        stream_interrupted_spec(m) == (m, true),
{
}

proof fn lemma_drain_general(m: DriverModel, chunks: Seq<Seq<u8>>)
    requires
        m.wf(),
        m.readable,
        m.persistent,
        m.err is None,
        valid_utf8(m.carry + chunks.flatten()),
        utf8_prefix_len(m.carry) == 0,
        forall|i: int| 0 <= i < chunks.len() ==> #[trigger] chunks[i].len() > 0,
    ensures
        drain_continues(m, chunks),
        drain_state(m, chunks).wf(),
        drain_state(m, chunks).err is None,
        drain_state(m, chunks).readable,
        drain_state(m, chunks).file_open,
    decreases chunks.len(),
{
    if chunks.len() != 0 {
        let data = chunks.first();
        let u = m.carry + chunks.flatten();
        let c = m.carry + data;
        assert(chunks.flatten() =~= data + chunks.drop_first().flatten());
        assert(c =~= u.subrange(0, c.len() as int));
        lemma_prefix_scan_of_valid(u, c.len() as int);
        let p = utf8_prefix_len(c);
        lemma_prefix_valid(c);
        lemma_prefix_stop(c);
        let step = stream_data_spec(m, data);
        let m2 = step.0;
        assert(step.1 == true);
        assert(m2.carry =~= c.subrange(p, c.len() as int));
        assert(utf8_prefix_len(m2.carry) == 0) by {
            assert(m2.carry =~= c.subrange(p, c.len() as int));
        }
        assert(m2.carry + chunks.drop_first().flatten() =~= u.subrange(p, u.len() as int));
        assert(m2.wf()) by {
            assert(valid_utf8(c.subrange(0, p)));
            assert forall|i: int| 0 <= i < m2.history.len() implies valid_utf8(
                #[trigger] m2.history[i],
            ) by {
                if i < m.history.len() {
                    assert(valid_utf8(m.history[i]));
                }
            }
        }
        lemma_drain_general(m2, chunks.drop_first());
    }
}

/// Law: streaming drain.  On a well-formed, persistent, readable driver
/// with a clean carry tail and no error state, reading an N-chunk file of
/// valid UTF-8 as N non-empty chunks makes each of the N streaming reads
/// report another chunk; the read after them (end of file) reports that the
/// stream ended, and the close that follows leaves no handle open.
pub proof fn lemma_streaming_drain(m: DriverModel, chunks: Seq<Seq<u8>>)
    requires
        m.wf(),
        m.readable,
        m.persistent,
        m.err is None,
        m.carry.len() == 0,
        valid_utf8(chunks.flatten()),
        forall|i: int| 0 <= i < chunks.len() ==> #[trigger] chunks[i].len() > 0,
    ensures
        drain_continues(m, chunks),
        stream_end_spec(drain_state(m, chunks)).1 == false,
        drain_state(m, chunks).err is None,
        close_spec(stream_end_spec(drain_state(m, chunks)).0, None).0.file_open == false,
{
    assert(m.carry =~= Seq::<u8>::empty());
    assert(m.carry + chunks.flatten() =~= chunks.flatten());
    lemma_drain_general(m, chunks);
}

proof fn lemma_batch_general(m: DriverModel, chunks: Seq<Seq<u8>>)
    requires
        m.wf(),
        valid_utf8(m.carry + chunks.flatten()),
        utf8_prefix_len(m.carry) == 0,
    ensures
        ({
            let mf = batch_state(m, chunks);
            &&& mf.wf()
            &&& mf.carry.len() == 0
            &&& (m.content matches Some(b) ==> mf.content == Some(b + m.carry + chunks.flatten()))
            &&& mf.err == m.err
            &&& mf.cycle_err == m.cycle_err
            &&& mf.file_open == m.file_open
            &&& mf.readable == m.readable
        }),
    decreases chunks.len(),
{
    broadcast use valid_utf8_concat;

    if chunks.len() == 0 {
        assert(chunks.flatten() =~= Seq::<u8>::empty());
        assert(m.carry + chunks.flatten() =~= m.carry);
        lemma_valid_iff_prefix_full(m.carry);
        assert(m.carry.len() == 0);
        if m.content is Some {
            let b = m.content->0;
            assert(b + m.carry + chunks.flatten() =~= b);
        }
    } else {
        let data = chunks.first();
        let u = m.carry + chunks.flatten();
        let c = m.carry + data;
        assert(chunks.flatten() =~= data + chunks.drop_first().flatten());
        if data.len() == 0 {
            assert(u =~= m.carry + chunks.drop_first().flatten());
            lemma_batch_general(m, chunks.drop_first());
            let mf = batch_state(m, chunks.drop_first());
            assert(batch_state(m, chunks) == mf);
            if m.content is Some {
                let b = m.content->0;
                assert(b + m.carry + chunks.flatten() =~= b + m.carry
                    + chunks.drop_first().flatten());
            }
        } else {
            assert(c =~= u.subrange(0, c.len() as int));
            lemma_prefix_scan_of_valid(u, c.len() as int);
            let p = utf8_prefix_len(c);
            lemma_prefix_valid(c);
            lemma_prefix_stop(c);
            let decoded = c.subrange(0, p);
            let step = batch_data_spec(m, data);
            let m2 = step.0;
            assert(m2.carry =~= c.subrange(p, c.len() as int));
            assert(utf8_prefix_len(m2.carry) == 0);
            assert(m2.carry + chunks.drop_first().flatten() =~= u.subrange(p, u.len() as int));
            assert(m2.wf()) by {
                assert(valid_utf8(decoded));
                assert forall|i: int| 0 <= i < m2.history.len() implies valid_utf8(
                    #[trigger] m2.history[i],
                ) by {
                    if i < m.history.len() {
                        assert(valid_utf8(m.history[i]));
                    }
                }
            }
            lemma_batch_general(m2, chunks.drop_first());
            let mf = batch_state(m2, chunks.drop_first());
            assert(batch_state(m, chunks) == mf);
            if m.content is Some {
                let b = m.content->0;
                assert(m2.content == Some(b + decoded));
                assert(mf.content == Some((b + decoded) + m2.carry
                    + chunks.drop_first().flatten()));
                assert((b + decoded) + m2.carry + chunks.drop_first().flatten() =~= b + m.carry
                    + chunks.flatten());
            }
        }
    }
}

/// Law: batch round trip.  Starting a batch cycle on a well-formed driver
/// (clean carry, empty content) and feeding it any chunking of a valid
/// UTF-8 byte stream accumulates content that is exactly that stream, with
/// no carry tail left over and no failure recorded.
pub proof fn lemma_batch_round_trip(m: DriverModel, chunks: Seq<Seq<u8>>)
    requires
        m.wf(),
        m.carry.len() == 0,
        m.content == Some(Seq::<u8>::empty()),
        valid_utf8(chunks.flatten()),
    ensures
        batch_state(m, chunks).content == Some(chunks.flatten()),
        batch_state(m, chunks).carry.len() == 0,
        batch_state(m, chunks).err == m.err,
        batch_state(m, chunks).cycle_err == m.cycle_err,
{
    assert(m.carry =~= Seq::<u8>::empty());
    assert(m.carry + chunks.flatten() =~= chunks.flatten());
    lemma_batch_general(m, chunks);
    assert(Seq::<u8>::empty() + m.carry + chunks.flatten() =~= chunks.flatten());
}

/// The decoding performed by a streaming or batch read over fresh bytes is
/// exactly one [`decode_step`] of the decode module, whose round-trip law is
/// [`crate::decode::lemma_chunked_round_trip`].
pub proof fn lemma_read_decodes_one_step(m: DriverModel, data: Seq<u8>)
    requires
        data.len() > 0,
    ensures
        ({
            let (decoded, tail) = decode_step(m.carry, data);
            &&& stream_data_spec(m, data).0.chunk_text == Some(decoded)
            &&& decode_step_ok(m.carry, data) ==> stream_data_spec(m, data).0.carry == tail
                && batch_data_spec(m, data).0.carry == tail
            &&& (m.content matches Some(b) ==> (decode_step_ok(m.carry, data)
                ==> batch_data_spec(m, data).0.content == Some(b + decoded)))
        }),
{
    lemma_prefix_len_bounds(m.carry + data);
}

/// Law: taking the accumulated text twice.  When content is held, the first
/// take hands it out and empties it; the second take then records
/// `NoContent` and hands out empty text.
pub proof fn lemma_take_content_twice(m: DriverModel)
    requires
        m.content is Some,
    ensures
        ({
            let first = take_content_spec(m);
            let second = take_content_spec(first.0);
            &&& (m.content matches Some(b) ==> first.1 == decode_utf8(b))
            &&& first.0.content is None
            &&& second.0.err == Some(ErrorKind::NoContent)
            &&& second.1 =~= Seq::<char>::empty()
        }),
{
}

} // verus!
