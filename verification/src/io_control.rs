//! The decision layer of the I/O boundary. The surrounding program performs
//! the reads, writes and process control; everything here is the pure logic
//! of those loops: which reader, writer and presenter a configuration picks,
//! the event order a file reader goes through, how raw bytes split into
//! lines, and when a shrunken file counts as truncated.

use vstd::prelude::*;

verus! {

pub struct FileInfo {
    pub path: String,
    pub line_count: usize,
}

/// Where lines come from.
pub enum Input {
    File(FileInfo),
    Stdin,
    Command(String),
}

/// Where rendered lines go.
pub enum Output {
    Less,
    CustomPager(String),
    Stdout,
}

pub struct Config {
    pub input: Input,
    pub output: Output,
    pub follow: bool,
    pub start_at_end: bool,
}

/// The reader the configuration picks; the surrounding program opens the
/// actual source.
pub enum Reader {
    Linemux { path: String, line_count: usize, start_at_end: bool },
    Stdin,
    Command { command: String },
}

/// The writer the configuration picks.
pub enum Writer {
    TempFile,
    Stdout,
}

/// The presenter the configuration picks; a pager reads the temp file the
/// writer fills.
pub enum PresenterImpl {
    Less { follow: bool },
    CustomPager { command: String },
    NoPresenter,
}

pub struct Io {
    pub reader: Reader,
    pub writer: Writer,
}

pub struct Presenter {
    pub presenter: PresenterImpl,
}

/// Pick the reader for an input source.
fn get_reader(input: Input, start_at_end: bool) -> (r: Reader)
    ensures
        r == (match input {
            Input::File(fi) => Reader::Linemux {
                path: fi.path,
                line_count: fi.line_count,
                start_at_end,
            },
            Input::Stdin => Reader::Stdin,
            Input::Command(cmd) => Reader::Command { command: cmd },
        }),
{
    match input {
        Input::File(fi) => Reader::Linemux {
            path: fi.path,
            line_count: fi.line_count,
            start_at_end,
        },
        Input::Stdin => Reader::Stdin,
        Input::Command(cmd) => Reader::Command { command: cmd },
    }
}

/// Pick the writer and presenter for an output: a pager reads from a temp
/// file; plain stdout needs no presenter.
fn get_writer_and_presenter(output: Output, follow: bool) -> (r: (Writer, PresenterImpl))
    ensures
        r == (match output {
            Output::Less => (Writer::TempFile, PresenterImpl::Less { follow }),
            Output::CustomPager(cmd) => (Writer::TempFile, PresenterImpl::CustomPager {
                command: cmd,
            }),
            Output::Stdout => (Writer::Stdout, PresenterImpl::NoPresenter),
        }),
{
    match output {
        Output::Less => (Writer::TempFile, PresenterImpl::Less { follow }),
        Output::CustomPager(cmd) => (Writer::TempFile, PresenterImpl::CustomPager { command: cmd }),
        Output::Stdout => (Writer::Stdout, PresenterImpl::NoPresenter),
    }
}

/// Resolve a configuration into its I/O plan and presenter.
pub fn get_io_and_presenter(config: Config) -> (r: (Io, Presenter))
    ensures
        r.0.reader == (match config.input {
            Input::File(fi) => Reader::Linemux {
                path: fi.path,
                line_count: fi.line_count,
                start_at_end: config.start_at_end,
            },
            Input::Stdin => Reader::Stdin,
            Input::Command(cmd) => Reader::Command { command: cmd },
        }),
        r.0.writer == (match config.output {
            Output::Stdout => Writer::Stdout,
            _ => Writer::TempFile,
        }),
        r.1.presenter == (match config.output {
            Output::Less => PresenterImpl::Less { follow: config.follow },
            Output::CustomPager(cmd) => PresenterImpl::CustomPager { command: cmd },
            Output::Stdout => PresenterImpl::NoPresenter,
        }),
{
    let reader = get_reader(config.input, config.start_at_end);
    let (writer, presenter) = get_writer_and_presenter(config.output, config.follow);
    (Io { reader, writer }, Presenter { presenter })
}

/// One event handed to the consumer of a line stream.
pub enum StreamEvent {
    Started,
    Ended,
    Line(String),
    Lines(Vec<String>),
}

/// What the file reader asks its driver to do next.
pub enum ReadStep {
    DeliverLines(Vec<String>),
    DeliverStarted,
    DeliverEnded,
    AwaitLine,
}

/// The event order of a tailed file: first the lines present when the file
/// was opened, then a start marker, then — unless the reader was told to
/// stop after the first read — one line at a time as the file grows.
pub struct FileReader {
    pub initial_lines: Option<Vec<String>>,
    pub has_emitted_start_event: bool,
    pub terminate_after_first_read: bool,
}

impl FileReader {
    pub fn new(initial_lines: Vec<String>, terminate_after_first_read: bool) -> (r: FileReader)
        ensures
            r.initial_lines == Some(initial_lines),
            !r.has_emitted_start_event,
            r.terminate_after_first_read == terminate_after_first_read,
    {
        FileReader {
            initial_lines: Some(initial_lines),
            has_emitted_start_event: false,
            terminate_after_first_read,
        }
    }

    /// The next step of the event order: the initial lines exactly once,
    /// then the start marker exactly once, then either the end marker or a
    /// request to await the next line, forever.
    pub fn advance(&mut self) -> (r: ReadStep)
        ensures
            match old(self).initial_lines {
                Some(lines) => r == ReadStep::DeliverLines(lines) && final(self).initial_lines
                    is None && final(self).has_emitted_start_event == old(
                    self,
                ).has_emitted_start_event,
                None => final(self).initial_lines is None && (if !old(
                    self,
                ).has_emitted_start_event {
                    r == ReadStep::DeliverStarted && final(self).has_emitted_start_event
                } else {
                    final(self).has_emitted_start_event && r == (if old(
                        self,
                    ).terminate_after_first_read {
                        ReadStep::DeliverEnded
                    } else {
                        ReadStep::AwaitLine
                    })
                }),
            },
            final(self).terminate_after_first_read == old(self).terminate_after_first_read,
    {
        let lines = self.initial_lines.take();
        match lines {
            Some(lines) => ReadStep::DeliverLines(lines),
            None => {
                if !self.has_emitted_start_event {
                    self.has_emitted_start_event = true;
                    ReadStep::DeliverStarted
                } else if self.terminate_after_first_read {
                    ReadStep::DeliverEnded
                } else {
                    ReadStep::AwaitLine
                }
            },
        }
    }
}

/// Whether a poll of the file found it shrunken past the read position —
/// the truncation signal; the driver then seeks back to the start.
pub fn detects_truncation(file_size: u64, position: u64) -> (r: bool)
    ensures
        r == (file_size < position),
{
    file_size < position
}

/// The bytes of a complete line in `buf`, line ending stripped: the bytes
/// before the final newline, minus a carriage return directly before it.
pub open spec fn line_content(b: Seq<u8>) -> Seq<u8> {
    if b.len() >= 2 && b[b.len() - 2] == 13 {
        b.subrange(0, b.len() - 2)
    } else {
        b.subrange(0, b.len() - 1)
    }
}

/// Extract the completed line from a read buffer: `None` while the buffer
/// does not yet end with a newline (a partial line at the end of the file,
/// to be continued by the next poll).
pub fn complete_line(buf: &Vec<u8>) -> (r: Option<Vec<u8>>)
    ensures
        match r {
            Some(line) => buf@.len() > 0 && buf@.last() == 10 && line@ == line_content(buf@),
            None => buf@.len() == 0 || buf@.last() != 10,
        },
{
    let n = buf.len();
    if n == 0 || buf[n - 1] != 10 {
        return None;
    }
    let end = if n >= 2 && buf[n - 2] == 13 {
        n - 2
    } else {
        n - 1
    };
    let mut line: Vec<u8> = Vec::new();
    crate::scan::append_range(&mut line, buf.as_slice(), 0, end);
    proof {
        assert(Seq::<u8>::empty() + buf@.subrange(0, end as int) =~= buf@.subrange(0, end as int));
    }
    Some(line)
}

/// How raw file content splits into lines: split at every newline, with a
/// carriage return directly before a newline stripped; a final fragment
/// without a newline is a line of its own; a trailing newline adds no empty
/// line.
pub open spec fn split_lines_spec(s: Seq<u8>) -> Seq<Seq<u8>>
    decreases s.len(),
{
    if s.len() == 0 {
        seq![]
    } else {
        match crate::scan::find_sub(s, seq![10u8], 0) {
            None => seq![s],
            Some(k) => if 0 <= k < s.len() {
                seq![strip_final_cr(s.subrange(0, k))] + split_lines_spec(
                    s.subrange(k + 1, s.len() as int),
                )
            } else {
                seq![s]
            },
        }
    }
}

/// Drop a final carriage return.
pub open spec fn strip_final_cr(t: Seq<u8>) -> Seq<u8> {
    if t.len() > 0 && t.last() == 13 {
        t.drop_last()
    } else {
        t
    }
}

/// Split raw file content into its lines.
pub fn split_lines(content: &[u8]) -> (r: Vec<Vec<u8>>)
    ensures
        r.deep_view() == split_lines_spec(content@),
    decreases content@.len(),
{
    let ghost s = content@;
    let mut out: Vec<Vec<u8>> = Vec::new();
    let mut pos: usize = 0;
    proof {
        assert(s.subrange(0, s.len() as int) =~= s);
        assert(out.deep_view() =~~= Seq::<Seq<u8>>::empty());
        assert(out.deep_view() + split_lines_spec(s) =~~= split_lines_spec(s));
    }
    while pos < content.len()
        invariant
            0 <= pos <= s.len(),
            s == content@,
            out.deep_view() + split_lines_spec(s.subrange(pos as int, s.len() as int))
                == split_lines_spec(s),
        decreases s.len() - pos,
    {
        let ghost p0 = pos as int;
        let ghost rest = s.subrange(pos as int, s.len() as int);
        let mut k = pos;
        while k < content.len() && content[k] != 10
            invariant
                pos <= k <= s.len(),
                s == content@,
                forall|j: int| pos <= j < k ==> s[j] != 10,
            decreases s.len() - k,
        {
            k += 1;
        }
        proof {
            assert forall|j: int| 0 <= j < k - p0 implies !crate::scan::is_sub_at(
                rest,
                seq![10u8],
                j,
            ) by {
                assert(rest.subrange(j, j + 1) =~= seq![rest[j]]);
                assert(rest[j] == s[p0 + j]);
                if rest.subrange(j, j + 1) == seq![10u8] {
                    assert(rest.subrange(j, j + 1)[0] == 10u8);
                }
            }
        }
        let ghost out_dv0 = out.deep_view();
        if k == content.len() {
            // final fragment without a newline
            let mut line: Vec<u8> = Vec::new();
            crate::scan::append_range(&mut line, content, pos, k);
            out.push(line);
            pos = content.len();
            proof {
                crate::scan::lemma_find_sub_is(rest, seq![10u8], 0, None);
                assert(split_lines_spec(rest) == seq![rest]);
                assert(line@ =~= rest);
                assert(out.deep_view() =~~= out_dv0 + seq![rest]);
                assert(split_lines_spec(s.subrange(s.len() as int, s.len() as int)) == Seq::<
                    Seq<u8>,
                >::empty());
                assert(out.deep_view() + Seq::<Seq<u8>>::empty() =~~= out_dv0 + split_lines_spec(
                    rest,
                ));
            }
        } else {
            // line ending at the newline, carriage return stripped
            proof {
                assert(rest.subrange(k - p0, k - p0 + 1) =~= seq![s[k as int]]);
                assert(crate::scan::is_sub_at(rest, seq![10u8], k - p0));
                crate::scan::lemma_find_sub_is(rest, seq![10u8], 0, Some(k - p0));
            }
            let end = if k > pos && content[k - 1] == 13 {
                k - 1
            } else {
                k
            };
            let mut line: Vec<u8> = Vec::new();
            crate::scan::append_range(&mut line, content, pos, end);
            proof {
                let first = rest.subrange(0, k - p0);
                assert(first.len() > 0 ==> first.last() == s[k - 1]);
                if k > p0 && s[k - 1] == 13 {
                    assert(line@ =~= first.drop_last());
                } else {
                    assert(line@ =~= first);
                }
                assert(line@ == strip_final_cr(first));
                assert(split_lines_spec(rest) == seq![strip_final_cr(first)] + split_lines_spec(
                    rest.subrange(k - p0 + 1, rest.len() as int),
                ));
                assert(rest.subrange(k - p0 + 1, rest.len() as int) =~= s.subrange(
                    k + 1 as int,
                    s.len() as int,
                ));
            }
            out.push(line);
            pos = k + 1;
            proof {
                assert(out.deep_view() =~~= out_dv0 + seq![strip_final_cr(
                    rest.subrange(0, k - p0),
                )]);
                assert(out.deep_view() + split_lines_spec(s.subrange(pos as int, s.len() as int))
                    =~~= out_dv0 + split_lines_spec(rest));
            }
        }
    }
    out
}

/// Writes rendered lines to standard output, one `println` per line; the
/// write itself happens in the surrounding program.
pub struct StdoutWriter {
    _private: (),
}

impl StdoutWriter {
    pub fn new() -> (r: StdoutWriter) {
        StdoutWriter { _private: () }
    }
}

/// The pager's temp-file sink: each line is written followed by a newline
/// and flushed at once, so a pager following the file sees lines
/// immediately; the writes themselves happen in the surrounding program.
pub struct TempFile {
    _private: (),
}

impl TempFile {
    pub fn new() -> (r: TempFile) {
        TempFile { _private: () }
    }
}

} // verus!
