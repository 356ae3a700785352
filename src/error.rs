//! An error with the chain of context frames that callers added on its way
//! up, reported newest frame first.
use crate::paths::push_char;
use crate::tiles::{digits, push_digits};
use vstd::prelude::*;
use vstd::string::StringExecFns;

verus! {

/// An error: the message of what went wrong, and the context frames added
/// by callers, oldest first.
pub struct BarErr {
    err: String,
    context: Vec<String>,
}

/// One context line: a tab, the frame's number (counted from 1, oldest
/// first), a dot and the frame.
pub open spec fn context_line(pos: nat, frame: Seq<char>) -> Seq<char> {
    seq!['\t'] + digits(pos + 1) + ". "@ + frame
}

/// The lines of the first `k` frames, newest first, one per line.
pub open spec fn context_lines(frames: Seq<Seq<char>>, k: nat) -> Seq<char>
    decreases k,
{
    if k == 0 {
        Seq::empty()
    } else if k == 1 {
        context_line(0, frames[0])
    } else {
        context_line((k - 1) as nat, frames[k - 1]) + seq!['\n'] + context_lines(frames, (k - 1) as nat)
    }
}

/// The report of an error: a header, its message, and the context frames
/// newest first where there are any.
pub open spec fn report(err: Seq<char>, frames: Seq<Seq<char>>) -> Seq<char> {
    let context = if frames.len() == 0 {
        Seq::empty()
    } else {
        "context:"@ + seq!['\n'] + context_lines(frames, frames.len())
    };
    "Error:"@ + seq!['\n', '\n'] + err + seq!['\n', '\n'] + context + seq!['\n']
}

impl BarErr {
    pub closed spec fn message(&self) -> Seq<char> {
        self.err@
    }

    /// The context frames, oldest first.
    pub closed spec fn frames(&self) -> Seq<Seq<char>> {
        self.context@.map_values(|s: String| s@)
    }

    pub fn new(err: String, context: Vec<String>) -> (e: Self)
        ensures
            e.message() == err@,
            e.frames() == context@.map_values(|s: String| s@),
    {
        BarErr { err, context }
    }

    /// Adds a context frame, the newest.
    pub fn push_context(&mut self, frame: String)
        ensures
            final(self).message() == old(self).message(),
            final(self).frames() == old(self).frames().push(frame@),
    {
        self.context.push(frame);
        assert(self.frames() =~= old(self).frames().push(frame@));
    }

    /// The report of the error: `Error:`, a blank line, the message, a
    /// blank line, and where there are frames `context:` with one numbered
    /// line per frame, newest first.
    pub fn render(&self) -> (r: String)
        ensures
            r@ == report(self.message(), self.frames()),
    {
        let n = self.context.len();
        let mut lines = String::new();
        let mut k: usize = 0;
        while k < n
            invariant
                0 <= k <= n,
                n == self.context@.len(),
                lines@ == context_lines(self.frames(), k as nat),
            decreases n - k,
        {
            assert(self.frames()[k as int] == self.context@[k as int]@);
            let mut line = String::new();
            push_char(&mut line, '\t');
            push_digits(&mut line, (k + 1) as u64);
            line.append(". ");
            line.append(self.context[k].as_str());
            assert(line@ =~= context_line(k as nat, self.frames()[k as int]));
            if k > 0 {
                push_char(&mut line, '\n');
                line.append(lines.as_str());
                assert(line@ =~= context_line(k as nat, self.frames()[k as int]) + seq!['\n'] + context_lines(self.frames(), k as nat));
            }
            lines = line;
            k = k + 1;
        }
        let mut r = String::from_str("Error:");
        push_char(&mut r, '\n');
        push_char(&mut r, '\n');
        r.append(self.err.as_str());
        push_char(&mut r, '\n');
        push_char(&mut r, '\n');
        if n > 0 {
            r.append("context:");
            push_char(&mut r, '\n');
            r.append(lines.as_str());
        }
        push_char(&mut r, '\n');
        assert(r@ =~= report(self.message(), self.frames()));
        r
    }
}

impl From<String> for BarErr {
    fn from(err: String) -> (e: BarErr)
        ensures
            e.message() == err@,
            e.frames() == Seq::<Seq<char>>::empty(),
    {
        BarErr::new(err, Vec::new())
    }
}

impl vstd::std_specs::convert::FromSpecImpl<String> for BarErr {
    open spec fn obeys_from_spec() -> bool {
        false
    }

    open spec fn from_spec(v: String) -> BarErr {
        arbitrary()
    }
}

impl From<&str> for BarErr {
    fn from(err: &str) -> (e: BarErr)
        ensures
            e.message() == err@,
            e.frames() == Seq::<Seq<char>>::empty(),
    {
        BarErr::new(String::from_str(err), Vec::new())
    }
}

impl vstd::std_specs::convert::FromSpecImpl<&str> for BarErr {
    open spec fn obeys_from_spec() -> bool {
        false
    }

    open spec fn from_spec(v: &str) -> BarErr {
        arbitrary()
    }
}

/// Adding a context frame to the error of a `Result`.
pub trait ContextExt<T> {
    /// The same result; an error gains the frame that `v` makes, as its
    /// newest.
    fn with_context<V: FnOnce() -> String>(self, v: V) -> Result<T, BarErr>
        requires
            v.requires(()),
    ;
}

impl<T, E: Into<BarErr>> ContextExt<T> for Result<T, E> {
    fn with_context<V: FnOnce() -> String>(self, v: V) -> (r: Result<T, BarErr>)
        ensures
            self is Ok <==> r is Ok,
            self matches Ok(x) ==> r == Ok::<T, BarErr>(x),
            r matches Err(e) ==> exists|frame: String| v.ensures((), frame) && e.frames().len() > 0
                && e.frames().last() == frame@,
    {
        match self {
            Ok(x) => Ok(x),
            Err(e) => {
                let mut err: BarErr = e.into();
                let frame = v();
                err.push_context(frame);
                Err(err)
            },
        }
    }
}

/// The text of an error and the errors that caused it, outermost first:
/// each message on its own line, and after the innermost one a line break
/// for each error that wraps it.
pub open spec fn chain_text(messages: Seq<Seq<char>>) -> Seq<char>
    decreases messages.len(),
{
    if messages.len() == 0 {
        Seq::empty()
    } else if messages.len() == 1 {
        messages[0] + seq!['\n']
    } else {
        messages[0] + seq!['\n'] + chain_text(messages.drop_first()) + seq!['\n']
    }
}

/// The text of an error given the messages of it and of its causes,
/// outermost first.
pub fn recursive_terra_error(messages: &Vec<String>) -> (r: String)
    ensures
        r@ == chain_text(messages@.map_values(|s: String| s@)),
{
    let ghost views = messages@.map_values(|s: String| s@);
    let n = messages.len();
    if n == 0 {
        return String::new();
    }
    let mut out = messages[n - 1].clone();
    push_char(&mut out, '\n');
    assert(views.subrange(n - 1, n as int).len() == 1);
    assert(out@ == chain_text(views.subrange(n - 1, n as int)));
    let mut k: usize = n - 1;
    while k > 0
        invariant
            0 <= k < n,
            n == messages@.len(),
            views == messages@.map_values(|s: String| s@),
            out@ == chain_text(views.subrange(k as int, n as int)),
        decreases k,
    {
        let mut next = messages[k - 1].clone();
        push_char(&mut next, '\n');
        next.append(out.as_str());
        push_char(&mut next, '\n');
        assert(views.subrange(k - 1, n as int).drop_first() =~= views.subrange(k as int, n as int));
        assert(next@ =~= chain_text(views.subrange(k - 1, n as int)));
        out = next;
        k = k - 1;
    }
    assert(views.subrange(0, n as int) =~= views);
    out
}

} // verus!
