use vstd::prelude::*;
use vstd::string::StrSliceExecFns;

verus! {

/// A cursor over the characters of an input string: peek, consume,
/// exhaustion check.
pub struct Scanner {
    cursor: usize,
    characters: Vec<char>,
}

impl Scanner {
    /// The characters being scanned.
    pub closed spec fn chars(&self) -> Seq<char> {
        self.characters@
    }

    /// The current cursor position.
    pub closed spec fn pos(&self) -> int {
        self.cursor as int
    }

    pub fn new(string: &str) -> (s: Scanner)
        ensures
            s.chars() == string@,
            s.pos() == 0,
    {
        let n = string.unicode_len();
        let mut characters: Vec<char> = Vec::new();
        let mut i: usize = 0;
        while i < n
            invariant
                i <= n,
                n == string@.len(),
                characters@ == string@.subrange(0, i as int),
            decreases n - i,
        {
            let c = string.get_char(i);
            characters.push(c);
            proof {
                assert(characters@ =~= string@.subrange(0, i + 1));
            }
            i = i + 1;
        }
        proof {
            assert(characters@ =~= string@);
        }
        Scanner { cursor: 0, characters }
    }

    /// Returns the current cursor. Useful for reporting errors.
    pub fn cursor(&self) -> (r: usize)
        ensures
            r == self.pos(),
    {
        self.cursor
    }

    /// Returns the next character without advancing the cursor.
    pub fn peek(&self) -> (r: Option<&char>)
        ensures
            match r {
                Some(c) => self.pos() < self.chars().len() && *c == self.chars()[self.pos()],
                None => self.pos() >= self.chars().len(),
            },
    {
        if self.cursor < self.characters.len() {
            Some(&self.characters[self.cursor])
        } else {
            None
        }
    }

    /// Returns true if further progress is not possible.
    pub fn is_done(&self) -> (r: bool)
        ensures
            r == (self.pos() == self.chars().len()),
    {
        self.cursor == self.characters.len()
    }

    /// Returns the next character (if available) and advances the cursor.
    pub fn pop(&mut self) -> (r: Option<char>)
        ensures
            final(self).chars() == old(self).chars(),
            match r {
                Some(c) => old(self).pos() < old(self).chars().len()
                    && c == old(self).chars()[old(self).pos()]
                    && final(self).pos() == old(self).pos() + 1,
                None => old(self).pos() >= old(self).chars().len()
                    && final(self).pos() == old(self).pos(),
            },
    {
        if self.cursor < self.characters.len() {
            let c = self.characters[self.cursor];
            self.cursor = self.cursor + 1;
            Some(c)
        } else {
            None
        }
    }

    /// Invoke `cb` once. If the result is not `None`, return it and advance
    /// the cursor. Otherwise, return None and leave the cursor unchanged.
    pub fn transform<T>(&mut self, cb: impl FnOnce(&char) -> Option<T>) -> (r: Option<T>)
        requires
            forall|c: char| call_requires(cb, (&c,)),
        ensures
            final(self).chars() == old(self).chars(),
            match r {
                Some(_) => old(self).pos() < old(self).chars().len()
                    && call_ensures(cb, (&old(self).chars()[old(self).pos()],), r)
                    && final(self).pos() == old(self).pos() + 1,
                None => final(self).pos() == old(self).pos()
                    && (old(self).pos() < old(self).chars().len()
                        ==> call_ensures(cb, (&old(self).chars()[old(self).pos()],), None::<T>)),
            },
    {
        if self.cursor < self.characters.len() {
            let input: char = self.characters[self.cursor];
            match cb(&input) {
                Some(output) => {
                    self.cursor = self.cursor + 1;
                    Some(output)
                }
                None => None,
            }
        } else {
            None
        }
    }

    /// Returns true if the `target` is found at the current cursor position,
    /// and advances the cursor.
    /// Otherwise, returns false leaving the cursor unchanged.
    pub fn take(&mut self, target: &char) -> (r: bool)
        ensures
            final(self).chars() == old(self).chars(),
            r == (old(self).pos() < old(self).chars().len()
                && old(self).chars()[old(self).pos()] == *target),
            final(self).pos() == if r {
                old(self).pos() + 1
            } else {
                old(self).pos()
            },
    {
        if self.cursor < self.characters.len() {
            if self.characters[self.cursor] == *target {
                self.cursor = self.cursor + 1;
                true
            } else {
                false
            }
        } else {
            false
        }
    }
    /// Scans forward, handing `cb` ever longer prefixes of the remaining
    /// input, one character at a time, until `cb` declines or decides; the
    /// accumulated `scan_outcome` relation says exactly which results and
    /// final positions a run may produce.
    pub fn scan<T>(&mut self, cb: impl Fn(&str) -> Option<Action<T>>) -> (r: Result<
        Option<T>,
        Error,
    >)
        requires
            forall|t: &str| call_requires(cb, (t,)),
        ensures
            final(self).chars() == old(self).chars(),
            old(self).pos() <= final(self).pos(),
            scan_outcome(
                cb,
                old(self).chars(),
                old(self).pos(),
                old(self).pos(),
                false,
                None::<T>,
                r,
                final(self).pos(),
            ),
    {
        let ghost s: Seq<char> = self.chars();
        let ghost start: int = self.pos();

        let mut sequence = String::new();
        let mut require = false;
        let mut request: Option<T> = None;

        proof {
            if start <= s.len() {
                assert(sequence@ =~= s.subrange(start, start));
            }
        }

        loop
            invariant
                forall|t: &str| call_requires(cb, (t,)),
                s == old(self).chars(),
                start == old(self).pos(),
                self.chars() == s,
                start <= self.pos(),
                start <= s.len() ==> self.pos() <= s.len() && sequence@ == s.subrange(
                    start,
                    self.pos(),
                ),
                start > s.len() ==> self.pos() == start,
                forall|r2: Result<Option<T>, Error>, end2: int|
                    #[trigger] scan_outcome(cb, s, start, self.pos(), require, request, r2, end2)
                        ==> scan_outcome(cb, s, start, start, false, None::<T>, r2, end2),
            decreases s.len() - self.pos(),
        {
            let ghost i: int = self.pos();
            let ghost prev_require = require;
            let ghost prev_request = request;

            if self.cursor < self.characters.len() {
                let target: char = self.characters[self.cursor];
                push_char(&mut sequence, target);
                proof {
                    assert(sequence@ =~= s.subrange(start, i + 1));
                }
                let prefix = sequence.as_str();
                let step = cb(prefix);
                proof {
                    assert(cb_yields(cb, s.subrange(start, i + 1), step));
                }

                match step {
                    Some(Action::Return(result)) => {
                        self.cursor = self.cursor + 1;
                        let r: Result<Option<T>, Error> = Ok(Some(result));
                        proof {
                            assert(scan_outcome(cb, s, start, i, prev_require, prev_request, r,
                                i + 1));
                        }
                        return r;
                    }
                    Some(Action::Request(result)) => {
                        self.cursor = self.cursor + 1;
                        require = false;
                        request = Some(result);
                        proof {
                            assert forall|r2: Result<Option<T>, Error>, end2: int|
                                #[trigger] scan_outcome(cb, s, start, i + 1, require, request, r2,
                                    end2) implies scan_outcome(cb, s, start, start, false,
                                None::<T>, r2, end2) by {
                                assert(scan_outcome(cb, s, start, i, prev_require, prev_request,
                                    r2, end2));
                            }
                        }
                    }
                    Some(Action::Require) => {
                        self.cursor = self.cursor + 1;
                        require = true;
                        proof {
                            assert forall|r2: Result<Option<T>, Error>, end2: int|
                                #[trigger] scan_outcome(cb, s, start, i + 1, require, request, r2,
                                    end2) implies scan_outcome(cb, s, start, start, false,
                                None::<T>, r2, end2) by {
                                assert(scan_outcome(cb, s, start, i, prev_require, prev_request,
                                    r2, end2));
                            }
                        }
                    }
                    None => {
                        if require {
                            let r: Result<Option<T>, Error> = Err(Error::Character(self.cursor));
                            proof {
                                assert(scan_outcome(cb, s, start, i, prev_require, prev_request,
                                    r, i));
                            }
                            return r;
                        } else {
                            let r: Result<Option<T>, Error> = Ok(request);
                            proof {
                                assert(scan_outcome(cb, s, start, i, prev_require, prev_request,
                                    r, i));
                            }
                            return r;
                        }
                    }
                }
            } else {
                if require {
                    let r: Result<Option<T>, Error> = Err(Error::EndOfLine);
                    proof {
                        assert(scan_outcome(cb, s, start, i, prev_require, prev_request, r, i));
                    }
                    return r;
                } else {
                    let r: Result<Option<T>, Error> = Ok(request);
                    proof {
                        assert(scan_outcome(cb, s, start, i, prev_require, prev_request, r, i));
                    }
                    return r;
                }
            }
        }
    }
}

/// Relies on std's `String::push`: it appends the given character to the end
/// of the string.
#[verifier::external_body]
fn push_char(s: &mut String, c: char)
    ensures
        final(s)@ == old(s)@.push(c),
{
    s.push(c);
}

/// What a scanning callback may answer for a prefix whose characters are
/// `prefix`: `o` is a possible return value of `cb` on such a string.
pub open spec fn cb_yields<T, F: Fn(&str) -> Option<Action<T>>>(
    cb: F,
    prefix: Seq<char>,
    o: Option<Action<T>>,
) -> bool {
    exists|t: &str| #[trigger] call_ensures(cb, (t,), o) && t@ == prefix
}

/// The behaviour of `Scanner::scan` from position `i`, scanning `s` with
/// callback `cb`, where the accumulated sequence began at `start`, `require`
/// records whether the last answer was `Require`, and `request` holds the
/// last `Request`ed value: `r` is a possible result with final position
/// `end`.
pub open spec fn scan_outcome<T, F: Fn(&str) -> Option<Action<T>>>(
    cb: F,
    s: Seq<char>,
    start: int,
    i: int,
    require: bool,
    request: Option<T>,
    r: Result<Option<T>, Error>,
    end: int,
) -> bool
    decreases s.len() - i,
{
    if i >= s.len() {
        end == i && r == (if require {
            Err::<Option<T>, Error>(Error::EndOfLine)
        } else {
            Ok::<Option<T>, Error>(request)
        })
    } else {
        exists|o: Option<Action<T>>|
            #[trigger] cb_yields(cb, s.subrange(start, i + 1), o) && (match o {
                Some(Action::Return(t)) => r == Ok::<Option<T>, Error>(Some(t)) && end == i + 1,
                Some(Action::Request(t)) => scan_outcome(cb, s, start, i + 1, false, Some(t), r, end),
                Some(Action::Require) => scan_outcome(cb, s, start, i + 1, true, request, r, end),
                None => end == i && r == (if require {
                    Err::<Option<T>, Error>(Error::Character(i as usize))
                } else {
                    Ok::<Option<T>, Error>(request)
                }),
            })
    }
}

/// The callback's directions to `Scanner::scan`.
pub enum Action<T> {
    /// Advance past this character and remember `T`: if scanning ends with
    /// the callback declining, return `T`.
    Request(T),
    /// Advance past this character, but demand more: if scanning ends here,
    /// the scan fails.
    Require,
    /// Immediately advance the cursor and return `T`.
    Return(T),
}

/// How a scan failed: at a character the callback declined after demanding
/// more, or at the end of the input.
#[derive(Debug, PartialEq, Eq)]
pub enum Error {
    Character(usize),
    EndOfLine,
}

} // verus!
