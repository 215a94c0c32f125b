//! Incremental scanner that pulls the top-level `"model"` key out of a JSON
//! request body as it arrives, so the proxy can pick a backend without
//! buffering the whole body first.
//!
//! Only depth-1 keys count: a `"model"` inside `messages[].content` is skipped
//! like any other nested value, so chat text mentioning a model name can't
//! hijack routing.

use vstd::prelude::*;

use crate::text::is_ascii_whitespace;
use crate::text::same_text;

verus! {

pub const QUOTE: u8 = 0x22;

pub const COMMA: u8 = 0x2C;

pub const COLON: u8 = 0x3A;

pub const OPEN_BRACKET: u8 = 0x5B;

pub const BACKSLASH: u8 = 0x5C;

pub const CLOSE_BRACKET: u8 = 0x5D;

pub const LOWER_N: u8 = 0x6E;

pub const LOWER_R: u8 = 0x72;

pub const LOWER_T: u8 = 0x74;

pub const OPEN_BRACE: u8 = 0x7B;

pub const CLOSE_BRACE: u8 = 0x7D;

#[derive(Debug, PartialEq, Eq, Structural)]
pub enum ScanError {
    /// The body isn't a JSON object, or is malformed before `"model"`.
    Malformed,
    /// A top-level `"model"` exists but isn't a string.
    ModelNotString,
    /// The top-level object closed without a `"model"` key.
    Absent,
}

/// Where in the body the scanner stands.
#[derive(Debug, Clone, Copy, PartialEq, Eq, Structural)]
pub enum State {
    /// Before the opening `{`.
    Start,
    /// Expecting a key's opening quote, a `,`, or the closing `}`.
    KeyStart,
    /// Inside a key string.
    Key,
    KeyEscape,
    /// Between a key and its `:`.
    Colon,
    /// Expecting the first byte of a value.
    ValueStart,
    /// Inside the string value of the top-level `"model"` key.
    Model,
    ModelEscape,
    /// Skipping a value we don't care about.
    SkipString,
    SkipStringEscape,
    /// Skipping a scalar (number, true, false, null) until its delimiter.
    SkipScalar,
    /// Skipping a nested object or array; `depth` tracks nesting.
    SkipNested,
    SkipNestedString,
    SkipNestedEscape,
}

/// A scanner as contracts see it.
#[verifier::ext_equal]
pub struct ScannerView {
    pub state: State,
    /// The text of the key read last.
    pub key: Seq<char>,
    /// As much of the model name as has been read.
    pub model: Seq<char>,
    /// How many brackets of the value being skipped stand open.
    pub depth: nat,
}

/// What is known of the body after some of its bytes.
pub enum Verdict {
    /// More bytes are needed.
    More,
    Found(Seq<char>),
    Failed(ScanError),
}

/// A scanner that has read nothing.
pub open spec fn fresh() -> ScannerView {
    ScannerView { state: State::Start, key: Seq::empty(), model: Seq::empty(), depth: 0 }
}

/// `s` moved on to `state`, with no verdict yet.
pub open spec fn goto(s: ScannerView, state: State) -> (ScannerView, Verdict) {
    (ScannerView { state, ..s }, Verdict::More)
}

/// The character that a backslash followed by `b` stands for in a model name.
pub open spec fn unescaped(b: u8) -> char {
    if b == LOWER_N {
        '\n'
    } else if b == LOWER_T {
        '\t'
    } else if b == LOWER_R {
        '\r'
    } else {
        b as char
    }
}

/// What the first byte of a value does: the value of `"model"` has to be a
/// string and is read, any other value is skipped.
pub open spec fn open_value(s: ScannerView, b: u8) -> (ScannerView, Verdict) {
    if is_ascii_whitespace(b) {
        (s, Verdict::More)
    } else if s.key == "model"@ {
        if b == QUOTE {
            (ScannerView { state: State::Model, model: Seq::empty(), ..s }, Verdict::More)
        } else {
            (s, Verdict::Failed(ScanError::ModelNotString))
        }
    } else if b == QUOTE {
        goto(s, State::SkipString)
    } else if b == OPEN_BRACE || b == OPEN_BRACKET {
        (ScannerView { state: State::SkipNested, depth: 1, ..s }, Verdict::More)
    } else if b == CLOSE_BRACE {
        (s, Verdict::Failed(ScanError::Malformed))
    } else {
        goto(s, State::SkipScalar)
    }
}

/// What a byte outside any string does to a nested value being skipped.
pub open spec fn skip_nested(s: ScannerView, b: u8) -> (ScannerView, Verdict) {
    if b == OPEN_BRACE || b == OPEN_BRACKET {
        (ScannerView { depth: s.depth + 1, ..s }, Verdict::More)
    } else if b == CLOSE_BRACE || b == CLOSE_BRACKET {
        let depth = (s.depth - 1) as nat;
        let state = if depth == 0 { State::KeyStart } else { State::SkipNested };
        (ScannerView { state, depth, ..s }, Verdict::More)
    } else if b == QUOTE {
        goto(s, State::SkipNestedString)
    } else {
        (s, Verdict::More)
    }
}

/// What a byte inside a quoted string does: the closing quote leads to
/// `closed`, a backslash to `escape`, and anything else is passed over.
pub open spec fn skip_quoted(s: ScannerView, b: u8, closed: State, escape: State) -> (
    ScannerView,
    Verdict,
) {
    if b == QUOTE {
        goto(s, closed)
    } else if b == BACKSLASH {
        goto(s, escape)
    } else {
        (s, Verdict::More)
    }
}

/// What one byte of the body does to a scanner.
pub open spec fn step(s: ScannerView, b: u8) -> (ScannerView, Verdict) {
    match s.state {
        State::Start => if b == OPEN_BRACE {
            goto(s, State::KeyStart)
        } else if is_ascii_whitespace(b) {
            (s, Verdict::More)
        } else {
            (s, Verdict::Failed(ScanError::Malformed))
        },
        State::KeyStart => if b == QUOTE {
            (ScannerView { state: State::Key, key: Seq::empty(), ..s }, Verdict::More)
        } else if b == COMMA || is_ascii_whitespace(b) {
            (s, Verdict::More)
        } else if b == CLOSE_BRACE {
            (s, Verdict::Failed(ScanError::Absent))
        } else {
            (s, Verdict::Failed(ScanError::Malformed))
        },
        State::Key => if b == QUOTE {
            goto(s, State::Colon)
        } else if b == BACKSLASH {
            goto(s, State::KeyEscape)
        } else {
            (ScannerView { key: s.key.push(b as char), ..s }, Verdict::More)
        },
        State::KeyEscape => (
            ScannerView { state: State::Key, key: s.key.push(b as char), ..s },
            Verdict::More,
        ),
        State::Colon => if b == COLON {
            goto(s, State::ValueStart)
        } else if is_ascii_whitespace(b) {
            (s, Verdict::More)
        } else {
            (s, Verdict::Failed(ScanError::Malformed))
        },
        State::ValueStart => open_value(s, b),
        State::Model => if b == QUOTE {
            (ScannerView { model: Seq::empty(), ..s }, Verdict::Found(s.model))
        } else if b == BACKSLASH {
            goto(s, State::ModelEscape)
        } else {
            (ScannerView { model: s.model.push(b as char), ..s }, Verdict::More)
        },
        State::ModelEscape => (
            ScannerView { state: State::Model, model: s.model.push(unescaped(b)), ..s },
            Verdict::More,
        ),
        State::SkipString => skip_quoted(s, b, State::KeyStart, State::SkipStringEscape),
        State::SkipStringEscape => goto(s, State::SkipString),
        State::SkipScalar => if b == COMMA {
            goto(s, State::KeyStart)
        } else if b == CLOSE_BRACE {
            (s, Verdict::Failed(ScanError::Absent))
        } else {
            (s, Verdict::More)
        },
        State::SkipNested => skip_nested(s, b),
        State::SkipNestedString => skip_quoted(s, b, State::SkipNested, State::SkipNestedEscape),
        State::SkipNestedEscape => goto(s, State::SkipNestedString),
    }
}

/// What the bytes do one after another, up to the one that settles the matter.
pub open spec fn run(s: ScannerView, bytes: Seq<u8>) -> (ScannerView, Verdict)
    decreases bytes.len(),
{
    if bytes.len() == 0 {
        (s, Verdict::More)
    } else {
        let (next, verdict) = step(s, bytes[0]);
        if verdict is More {
            run(next, bytes.skip(1))
        } else {
            (next, verdict)
        }
    }
}

/// The verdict that a call of [`ModelScanner::feed`] reports with `r`.
pub open spec fn verdict_of(r: Result<Option<String>, ScanError>) -> Verdict {
    match r {
        Ok(None) => Verdict::More,
        Ok(Some(model)) => Verdict::Found(model@),
        Err(e) => Verdict::Failed(e),
    }
}

pub struct ModelScanner {
    state: State,
    key: String,
    model: String,
    /// Nesting level while skipping a `{...}` or `[...]` value.
    depth: usize,
}

impl View for ModelScanner {
    type V = ScannerView;

    closed spec fn view(&self) -> ScannerView {
        ScannerView {
            state: self.state,
            key: self.key@,
            model: self.model@,
            depth: self.depth as nat,
        }
    }
}

/// While a nested value is being skipped, at least one bracket stands open.
pub open spec fn well_nested(s: ScannerView) -> bool {
    (s.state is SkipNested || s.state is SkipNestedString || s.state is SkipNestedEscape)
        ==> s.depth >= 1
}

impl ModelScanner {
    pub open spec fn wf(&self) -> bool {
        well_nested(self@)
    }

    pub fn new() -> (r: Self)
        ensures
            r.wf(),
            r@ == fresh(),
    {
        Self { state: State::Start, key: String::new(), model: String::new(), depth: 0 }
    }

    /// Feeds the next chunk of the body.
    ///
    /// Returns `Ok(Some(model))` once the value is complete, `Ok(None)` if more
    /// bytes are needed, and `Err` when the body can't yield one.
    pub fn feed(&mut self, chunk: &[u8]) -> (r: Result<Option<String>, ScanError>)
        requires
            old(self).wf(),
            old(self)@.depth + chunk@.len() <= usize::MAX,
        ensures
            final(self).wf(),
            final(self)@ == run(old(self)@, chunk@).0,
            verdict_of(r) == run(old(self)@, chunk@).1,
            final(self)@.depth <= old(self)@.depth + chunk@.len(),
    {
        let mut i: usize = 0;
        proof {
            assert(chunk@.skip(0) =~= chunk@);
        }
        while i < chunk.len()
            invariant
                i <= chunk@.len(),
                self.wf(),
                self@.depth <= old(self)@.depth + i,
                old(self)@.depth + chunk@.len() <= usize::MAX,
                run(old(self)@, chunk@) == run(self@, chunk@.skip(i as int)),
            decreases chunk@.len() - i,
        {
            let b: u8 = chunk[i];
            proof {
                assert(chunk@.skip(i as int)[0] == b);
                assert(chunk@.skip(i as int).skip(1) =~= chunk@.skip(i + 1));
            }
            match self.advance(b) {
                Ok(None) => {},
                other => {
                    return other;
                },
            }
            i = i + 1;
        }
        Ok(None)
    }

    /// Takes in one byte of the body.
    fn advance(&mut self, b: u8) -> (r: Result<Option<String>, ScanError>)
        requires
            old(self).wf(),
            old(self)@.depth < usize::MAX,
        ensures
            final(self).wf(),
            final(self)@ == step(old(self)@, b).0,
            verdict_of(r) == step(old(self)@, b).1,
            final(self)@.depth <= old(self)@.depth + 1,
    {
        match self.state {
            State::Start => {
                if b == OPEN_BRACE {
                    self.state = State::KeyStart;
                } else if !is_ascii_whitespace(b) {
                    return Err(ScanError::Malformed);
                }
            },
            State::KeyStart => {
                if b == QUOTE {
                    self.key = String::new();
                    self.state = State::Key;
                } else if b == CLOSE_BRACE {
                    return Err(ScanError::Absent);
                } else if b != COMMA && !is_ascii_whitespace(b) {
                    return Err(ScanError::Malformed);
                }
            },
            State::Key => {
                if b == QUOTE {
                    self.state = State::Colon;
                } else if b == BACKSLASH {
                    self.state = State::KeyEscape;
                } else {
                    self.key.push(b as char);
                }
            },
            State::KeyEscape => {
                self.key.push(b as char);
                self.state = State::Key;
            },
            State::Colon => {
                if b == COLON {
                    self.state = State::ValueStart;
                } else if !is_ascii_whitespace(b) {
                    return Err(ScanError::Malformed);
                }
            },
            State::ValueStart => {
                let wanted: bool = same_text(self.key.as_str(), "model");
                if !is_ascii_whitespace(b) {
                    if wanted {
                        if b != QUOTE {
                            return Err(ScanError::ModelNotString);
                        }
                        self.model = String::new();
                        self.state = State::Model;
                    } else if b == QUOTE {
                        self.state = State::SkipString;
                    } else if b == OPEN_BRACE || b == OPEN_BRACKET {
                        self.depth = 1;
                        self.state = State::SkipNested;
                    } else if b == CLOSE_BRACE {
                        return Err(ScanError::Malformed);
                    } else {
                        self.state = State::SkipScalar;
                    }
                }
            },
            // The model value is a JSON string; unescape the handful of
            // escapes a model id could plausibly carry and take the rest
            // literally. Ids are ASCII in practice.
            State::Model => {
                if b == QUOTE {
                    let mut model: String = String::new();
                    core::mem::swap(&mut model, &mut self.model);
                    return Ok(Some(model));
                } else if b == BACKSLASH {
                    self.state = State::ModelEscape;
                } else {
                    self.model.push(b as char);
                }
            },
            State::ModelEscape => {
                let c: char = if b == LOWER_N {
                    '\n'
                } else if b == LOWER_T {
                    '\t'
                } else if b == LOWER_R {
                    '\r'
                } else {
                    b as char
                };
                self.model.push(c);
                self.state = State::Model;
            },
            State::SkipString => {
                if b == QUOTE {
                    self.state = State::KeyStart;
                } else if b == BACKSLASH {
                    self.state = State::SkipStringEscape;
                }
            },
            State::SkipStringEscape => {
                self.state = State::SkipString;
            },
            State::SkipScalar => {
                if b == COMMA {
                    self.state = State::KeyStart;
                } else if b == CLOSE_BRACE {
                    return Err(ScanError::Absent);
                }
            },
            State::SkipNested => {
                if b == OPEN_BRACE || b == OPEN_BRACKET {
                    self.depth = self.depth + 1;
                } else if b == CLOSE_BRACE || b == CLOSE_BRACKET {
                    self.depth = self.depth - 1;
                    if self.depth == 0 {
                        self.state = State::KeyStart;
                    }
                } else if b == QUOTE {
                    self.state = State::SkipNestedString;
                }
            },
            State::SkipNestedString => {
                if b == QUOTE {
                    self.state = State::SkipNested;
                } else if b == BACKSLASH {
                    self.state = State::SkipNestedEscape;
                }
            },
            State::SkipNestedEscape => {
                self.state = State::SkipNestedString;
            },
        }
        Ok(None)
    }
}

} // verus!
