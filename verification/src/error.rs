//! The carrier type: an error value whose encoded message is the single
//! source of truth for status, domain and message, together with the display
//! strings of the causal chain that led to it and a captured stack trace.

use vstd::prelude::*;

use crate::codec::decode;
use crate::codec::decode_spec;
use crate::codec::lemma_status_in_range;

verus! {

/// A result whose error is an [`HttpWhatever`].
pub type HttpResult<A> = Result<A, HttpWhatever>;

/// What a contract sees of an error value: the encoded message and the
/// display strings of the causal chain, outermost cause first.
pub ghost struct ErrorModel {
    pub message: Seq<char>,
    pub causes: Seq<Seq<char>>,
}

#[verifier::external_type_specification]
#[verifier::external_body]
pub struct ExBacktrace(std::backtrace::Backtrace);

/// Relies on std::backtrace::Backtrace::capture: it captures the state of
/// the call stack here, for diagnostics only; nothing is promised of it.
#[verifier::external_body]
fn capture_trace() -> std::backtrace::Backtrace {
    std::backtrace::Backtrace::capture()
}

/// A name for what http::StatusCode's Display implementation writes for a
/// code: the decimal code, a space, and the canonical reason phrase of the
/// status table, a function of the code alone.
pub uninterp spec fn status_display_of(code: int) -> Seq<char>;

/// Relies on http::StatusCode: `from_u16` accepts every code in 100..=999,
/// and the Display implementation writes the code followed by its canonical
/// reason phrase, which depend on the code alone.
#[verifier::external_body]
fn status_line(code: u16) -> (r: String)
    requires
        100 <= code <= 999,
    ensures
        r@ == status_display_of(code as int),
{
    let status = http::StatusCode::from_u16(code).unwrap();
    format!("{}", status)
}

/// The canonical single-line rendering of an error with encoded message `m`:
/// `"{message}: (Domain: {domain}, HTTP status: {status})"`.
pub open spec fn display_spec(m: Seq<char>) -> Seq<char> {
    let d = decode_spec(m);
    d.message + ": (Domain: "@ + d.domain + ", HTTP status: "@ + status_display_of(d.status)
        + ")"@
}

/// One line of the causal narrative: `"\n[{cause}]"`.
pub open spec fn cause_line(c: Seq<char>) -> Seq<char> {
    "\n["@ + c + "]"@
}

/// The causal narrative: one [`cause_line`] per link, in order.
pub open spec fn cause_lines(cs: Seq<Seq<char>>) -> Seq<char>
    decreases cs.len(),
{
    if cs.len() == 0 {
        Seq::<char>::empty()
    } else {
        cause_line(cs[0]) + cause_lines(cs.skip(1))
    }
}

/// The full diagnostic rendering: the display line, then the causal
/// narrative.
pub open spec fn details_spec(v: ErrorModel) -> Seq<char> {
    display_spec(v.message) + cause_lines(v.causes)
}

/// A structured error for request-handling code. The encoded message is the
/// only place status, domain and message are stored: every accessor derives
/// its answer by re-decoding it on demand. Immutable after construction.
pub struct HttpWhatever {
    message: String,
    causes: Vec<String>,
    trace: std::backtrace::Backtrace,
}

impl View for HttpWhatever {
    type V = ErrorModel;

    closed spec fn view(&self) -> ErrorModel {
        ErrorModel { message: self.message@, causes: self.causes.deep_view() }
    }
}

impl HttpWhatever {
    /// Create an error with no cause from an encoded message string, which
    /// should follow the `[<status>:][<domain>:]<message>` shape. Never
    /// fails.
    pub fn new(message: &str) -> (r: Self)
        ensures
            r@.message == message@,
            r@.causes == Seq::<Seq<char>>::empty(),
    {
        let r = HttpWhatever {
            message: String::from_str(message),
            causes: Vec::new(),
            trace: capture_trace(),
        };
        proof {
            assert(r@.causes =~= Seq::<Seq<char>>::empty());
        }
        r
    }

    /// Attach an encoded message as context to an existing failure:
    /// `cause_chain` holds the display strings of the underlying error and
    /// of each further cause, outermost first.
    pub fn wrap(cause_chain: Vec<String>, message: &str) -> (r: Self)
        ensures
            r@.message == message@,
            r@.causes == cause_chain.deep_view(),
    {
        HttpWhatever {
            message: String::from_str(message),
            causes: cause_chain,
            trace: capture_trace(),
        }
    }

    /// The three parts of the encoded message, decoded on demand: the
    /// message text, the domain tag, and the HTTP status code.
    pub fn parts(&self) -> (r: (String, String, u16))
        ensures
            r.0@ == decode_spec(self@.message).message,
            r.1@ == decode_spec(self@.message).domain,
            r.2 as int == decode_spec(self@.message).status,
            100 <= r.2 <= 999,
    {
        proof {
            lemma_status_in_range(self@.message);
        }
        decode(self.message.as_str())
    }

    /// The canonical single-line string conversion of the error:
    /// `"{message}: (Domain: {domain}, HTTP status: {status})"`.
    pub fn display(&self) -> (r: String)
        ensures
            r@ == display_spec(self@.message),
    {
        let (message, domain, status) = self.parts();
        let mut out = message;
        out.append(": (Domain: ");
        out.append(domain.as_str());
        out.append(", HTTP status: ");
        let line = status_line(status);
        out.append(line.as_str());
        out.append(")");
        proof {
            assert(out@ =~= display_spec(self@.message));
        }
        out
    }

    /// The full diagnostic string: the display line, then one `"\n[{cause}]"`
    /// line per link of the causal chain, in order. The chain is a finite
    /// owned sequence, so this always terminates.
    pub fn details(&self) -> (r: String)
        ensures
            r@ == details_spec(self@),
    {
        let mut out = self.display();
        proof {
            assert(self@.causes.take(0) =~= Seq::<Seq<char>>::empty());
            assert(out@ =~= display_spec(self@.message) + cause_lines(self@.causes.take(0)));
        }
        let n: usize = self.causes.len();
        let mut i: usize = 0;
        while i < n
            invariant
                i <= n,
                n == self.causes.len(),
                out@ == display_spec(self@.message) + cause_lines(self@.causes.take(i as int)),
            decreases n - i,
        {
            out.append("\n[");
            out.append(self.causes[i].as_str());
            out.append("]");
            proof {
                lemma_cause_lines_snoc(self@.causes, i as int);
                assert(self@.causes[i as int] == self.causes[i as int]@);
                assert(out@ =~= display_spec(self@.message) + cause_lines(
                    self@.causes.take(i as int + 1),
                ));
            }
            i = i + 1;
        }
        proof {
            assert(self@.causes.take(n as int) =~= self@.causes);
        }
        out
    }
}

/// The diagnostic string of an error with no cause is the display line
/// exactly.
pub proof fn lemma_details_no_cause(v: ErrorModel)
    requires
        v.causes.len() == 0,
    ensures
        details_spec(v) == display_spec(v.message),
{
    assert(details_spec(v) =~= display_spec(v.message));
}

/// The diagnostic string of an error with exactly one cause is the display
/// line followed by `"\n[{cause}]"`.
pub proof fn lemma_details_one_cause(v: ErrorModel)
    requires
        v.causes.len() == 1,
    ensures
        details_spec(v) == display_spec(v.message) + "\n["@ + v.causes[0] + "]"@,
{
    assert(v.causes.skip(1) =~= Seq::<Seq<char>>::empty());
    assert(cause_lines(Seq::<Seq<char>>::empty()) == Seq::<char>::empty());
    assert(details_spec(v) =~= display_spec(v.message) + "\n["@ + v.causes[0] + "]"@);
}

/// Extending the chain by one link appends exactly one cause line.
proof fn lemma_cause_lines_snoc(cs: Seq<Seq<char>>, i: int)
    requires
        0 <= i < cs.len(),
    ensures
        cause_lines(cs.take(i + 1)) == cause_lines(cs.take(i)) + cause_line(cs[i]),
    decreases i,
{
    if i == 0 {
        assert(cs.take(1) =~= seq![cs[0]]);
        assert(cs.take(0) =~= Seq::<Seq<char>>::empty());
        assert(cs.take(1).skip(1) =~= Seq::<Seq<char>>::empty());
        assert(cause_lines(Seq::<Seq<char>>::empty()) == Seq::<char>::empty());
        assert(cause_lines(cs.take(1)) == cause_line(cs[0]) + cause_lines(cs.take(1).skip(1)));
        assert(cause_lines(cs.take(1)) =~= cause_lines(cs.take(0)) + cause_line(cs[0]));
    } else {
        lemma_cause_lines_snoc(cs.skip(1), i - 1);
        assert(cs.take(i + 1)[0] == cs[0]);
        assert(cs.take(i + 1).skip(1) =~= cs.skip(1).take(i));
        assert(cs.take(i).skip(1) =~= cs.skip(1).take(i - 1));
        assert(cs.take(i)[0] == cs[0]);
        assert(cs.skip(1)[i - 1] == cs[i]);
        assert(cause_lines(cs.take(i + 1)) =~= cause_lines(cs.take(i)) + cause_line(cs[i]));
    }
}

} // verus!
