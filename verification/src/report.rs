//! Typed failures that carry a chain of human-readable context.
//!
//! A [`Report`] holds the context that currently classifies a failure and the
//! texts of everything that was said about it before, oldest first. The
//! operations of the library only add to that chain and hand it on.

use vstd::prelude::*;
use vstd::string::StringExecFns;

verus! {

/// Something that can be said about a failure.
pub trait Message {
    /// The characters of the message.
    spec fn text(&self) -> Seq<char>;

    fn render(&self) -> (rendered: String)
        ensures
            rendered@ == self.text(),
    ;
}

impl Message for String {
    open spec fn text(&self) -> Seq<char> {
        self@
    }

    fn render(&self) -> (rendered: String) {
        self.clone()
    }
}

impl<'a> Message for &'a str {
    open spec fn text(&self) -> Seq<char> {
        self@
    }

    fn render(&self) -> (rendered: String) {
        String::from_str(self)
    }
}

/// A kind of failure: what a [`Report`] is currently classified as.
pub trait Context {
    /// The characters that describe this kind of failure.
    spec fn description(&self) -> Seq<char>;

    fn describe(&self) -> (described: String)
        ensures
            described@ == self.description(),
    ;
}

impl Context for () {
    open spec fn description(&self) -> Seq<char> {
        "unspecified failure"@
    }

    fn describe(&self) -> (described: String) {
        String::from_str("unspecified failure")
    }
}

/// A failure of kind `C` and what has been said about it so far.
#[derive(Debug)]
pub struct Report<C> {
    pub context: C,
    pub frames: Vec<String>,
}

/// The texts of a list of frames, in order.
pub open spec fn texts(frames: Seq<String>) -> Seq<Seq<char>> {
    Seq::new(frames.len(), |i: int| frames[i]@)
}

impl<C> Report<C> {
    /// Everything that was said about the failure, oldest first.
    pub open spec fn chain(&self) -> Seq<Seq<char>> {
        texts(self.frames@)
    }

    /// A fresh report of kind `context` about which nothing was said yet.
    pub fn new(context: C) -> (report: Report<C>)
        ensures
            report.context == context,
            report.chain() == Seq::<Seq<char>>::empty(),
    {
        let report = Report { context, frames: Vec::new() };
        assert(report.chain() =~= Seq::<Seq<char>>::empty());
        report
    }

    pub fn current_context(&self) -> (context: &C)
        ensures
            *context == self.context,
    {
        &self.context
    }

    /// The chain as texts that can be read at run time.
    pub fn frames(&self) -> (frames: &Vec<String>)
        ensures
            texts(frames@) == self.chain(),
    {
        &self.frames
    }

    /// Adds `text` to the end of the chain.
    fn push_text(self, text: String) -> (report: Report<C>)
        ensures
            report.context == self.context,
            report.chain() == self.chain().push(text@),
    {
        let Report { context, frames } = self;
        let mut frames = frames;
        let ghost before = frames@;
        frames.push(text);
        let report = Report { context, frames };
        assert(report.chain() =~= texts(before).push(text@));
        report
    }

    /// Adds a message to the chain and keeps the kind of failure.
    pub fn wrap<M: Message>(self, message: M) -> (report: Report<C>)
        ensures
            report.context == self.context,
            report.chain() == self.chain().push(message.text()),
    {
        let text = message.render();
        self.push_text(text)
    }

    /// Adds a message to the chain and keeps the kind of failure.
    pub fn attach<M: Message>(self, message: M) -> (report: Report<C>)
        ensures
            report.context == self.context,
            report.chain() == self.chain().push(message.text()),
    {
        self.wrap(message)
    }

    /// Whether `text` was said about the failure.
    pub fn mentions(&self, text: &str) -> (found: bool)
        ensures
            found == self.chain().contains(text@),
    {
        let wanted = String::from_str(text);
        let mut i: usize = 0;
        while i < self.frames.len()
            invariant
                i <= self.frames@.len(),
                wanted@ == text@,
                forall|j: int| 0 <= j < i ==> self.chain()[j] != text@,
            decreases self.frames@.len() - i,
        {
            if self.frames[i] == wanted {
                assert(self.chain()[i as int] == text@);
                return true;
            }
            i += 1;
        }
        false
    }
}

impl<C: Context> Report<C> {
    /// Classifies the failure anew. The description of the kind it had is
    /// added to the chain, so nothing that was known is lost.
    pub fn provide_context<C2: Context>(self, context: C2) -> (report: Report<C2>)
        ensures
            report.context == context,
            report.chain() == self.chain().push(self.context.description()),
    {
        let text = self.context.describe();
        let Report { context: _, frames } = self;
        let mut frames = frames;
        let ghost before = frames@;
        frames.push(text);
        let report = Report { context, frames };
        assert(report.chain() =~= texts(before).push(text@));
        report
    }

    /// Classifies the failure anew. The same as [`Report::provide_context`].
    pub fn change_context<C2: Context>(self, context: C2) -> (report: Report<C2>)
        ensures
            report.context == context,
            report.chain() == self.chain().push(self.context.description()),
    {
        self.provide_context(context)
    }

    /// Forgets the kind of failure, keeping its description in the chain.
    pub fn generalize(self) -> (report: Report<()>)
        ensures
            report.chain() == self.chain().push(self.context.description()),
    {
        self.provide_context(())
    }
}

/// What [`ResultExt::wrap_err`] returns for `result` and a message of text `text`.
pub open spec fn wrapped<T, C>(
    result: Result<T, Report<C>>,
    returned: Result<T, Report<C>>,
    text: Seq<char>,
) -> bool {
    match result {
        Ok(value) => returned == Ok::<T, Report<C>>(value),
        Err(report) => returned is Err && returned->Err_0.context == report.context
            && returned->Err_0.chain() == report.chain().push(text),
    }
}

/// What [`ResultExt::provide_context`] returns for `result` and the new kind `context`.
pub open spec fn reclassified<T, C: Context, C2>(
    result: Result<T, Report<C>>,
    returned: Result<T, Report<C2>>,
    context: C2,
) -> bool {
    match result {
        Ok(value) => returned == Ok::<T, Report<C2>>(value),
        Err(report) => returned is Err && returned->Err_0.context == context
            && returned->Err_0.chain() == report.chain().push(report.context.description()),
    }
}

/// Adding context to the failure that a result may hold.
pub trait ResultExt: Sized {
    /// The type of the value of a success.
    type Ok;

    /// The kind of failure before any new kind is given.
    type Context;

    /// Adds a message to the chain of a failure; a success is handed on.
    fn wrap_err<M: Message>(self, message: M) -> Result<Self::Ok, Report<Self::Context>>;

    /// As [`ResultExt::wrap_err`], but the message is only made for a failure.
    fn wrap_err_lazy<M: Message, F: FnOnce() -> M>(self, op: F) -> Result<
        Self::Ok,
        Report<Self::Context>,
    >
        requires
            op.requires(()),
    ;

    /// Classifies a failure anew; a success is handed on.
    fn provide_context<C2: Context>(self, context: C2) -> Result<Self::Ok, Report<C2>>;

    /// As [`ResultExt::provide_context`], but the kind is only made for a failure.
    fn provide_context_lazy<C2: Context, F: FnOnce() -> C2>(self, op: F) -> Result<
        Self::Ok,
        Report<C2>,
    >
        requires
            op.requires(()),
    ;

    /// Forgets the kind of a failure; a success is handed on.
    fn generalize(self) -> Result<Self::Ok, Report<()>>;
}

impl<T, C: Context> ResultExt for Result<T, Report<C>> {
    type Ok = T;

    type Context = C;

    fn wrap_err<M: Message>(self, message: M) -> (returned: Result<T, Report<C>>)
        ensures
            wrapped(self, returned, message.text()),
    {
        match self {
            Ok(ok) => Ok(ok),
            Err(report) => Err(report.wrap(message)),
        }
    }

    fn wrap_err_lazy<M: Message, F: FnOnce() -> M>(self, op: F) -> (returned: Result<
        T,
        Report<C>,
    >)
        ensures
            self is Ok ==> returned == self,
            self is Err ==> exists|message: M|
                op.ensures((), message) && wrapped(self, returned, message.text()),
    {
        match self {
            Ok(ok) => Ok(ok),
            Err(report) => {
                let message = op();
                let ghost text = message.text();
                let returned = Err(report.wrap(message));
                assert(op.ensures((), message) && wrapped(self, returned, message.text()));
                returned
            },
        }
    }

    fn provide_context<C2: Context>(self, context: C2) -> (returned: Result<T, Report<C2>>)
        ensures
            reclassified(self, returned, context),
    {
        match self {
            Ok(ok) => Ok(ok),
            Err(report) => Err(report.provide_context(context)),
        }
    }

    fn provide_context_lazy<C2: Context, F: FnOnce() -> C2>(self, op: F) -> (returned: Result<
        T,
        Report<C2>,
    >)
        ensures
            self matches Ok(value) ==> returned == Ok::<T, Report<C2>>(value),
            self is Err ==> exists|context: C2|
                op.ensures((), context) && reclassified(self, returned, context),
    {
        match self {
            Ok(ok) => Ok(ok),
            Err(report) => {
                let context = op();
                let ghost made = context;
                let returned = Err(report.provide_context(context));
                assert(op.ensures((), made) && reclassified(self, returned, made));
                returned
            },
        }
    }

    fn generalize(self) -> (returned: Result<T, Report<()>>)
        ensures
            reclassified(self, returned, ()),
    {
        match self {
            Ok(ok) => Ok(ok),
            Err(report) => Err(report.generalize()),
        }
    }
}

/// Turning the failure of a plain result into a [`Report`].
pub trait IntoReport: Sized {
    /// The type of the value of a success.
    type Ok;

    /// The kind of the failure.
    type Err;

    /// Starts a report for a failure; a success is handed on.
    fn report(self) -> Result<Self::Ok, Report<Self::Err>>;
}

impl<T, E> IntoReport for Result<T, E> {
    type Ok = T;

    type Err = E;

    fn report(self) -> (returned: Result<T, Report<E>>)
        ensures
            self matches Ok(value) ==> returned == Ok::<T, Report<E>>(value),
            self matches Err(error) ==> returned is Err && returned->Err_0.context == error
                && returned->Err_0.chain() == Seq::<Seq<char>>::empty(),
    {
        match self {
            Ok(value) => Ok(value),
            Err(error) => Err(Report::new(error)),
        }
    }
}

} // verus!
