//! The chained failure value, its rendering, and the adapters that turn other
//! failures into it while recording where they were observed.

use crate::exception_names::{AssertionFailedException, DummyException, UncategorizedException};
use crate::text::{decimal, trim, trim_str, u32_to_decimal};
use vstd::prelude::*;
use vstd::string::*;

verus! {

/// What an [`Exception`] was caused by: an earlier exception, or the text of
/// any other failure.
pub enum Cause {
    Chained(Box<Exception>),
    Message(String),
}

/// One node of a failure chain.
pub struct Exception {
    name: String,
    file: String,
    line: u32,
    column: u32,
    context: Option<String>,
    inner: Option<Cause>,
}

/// Every fallible operation returns this: a value, or the exception that explains
/// why there is none.
pub type Outcome<T> = Result<T, Box<Exception>>;

/// The mathematical content of a [`Cause`].
pub enum CauseView {
    Chained(Box<ExceptionView>),
    Message(Seq<char>),
}

/// The mathematical content of an [`Exception`].
pub struct ExceptionView {
    pub name: Seq<char>,
    pub file: Seq<char>,
    pub line: u32,
    pub column: u32,
    pub context: Option<Seq<char>>,
    pub cause: Option<CauseView>,
}

/// The tag given to an exception that was never named.
pub open spec fn sentinel_name() -> Seq<char> {
    UncategorizedException@
}

/// The tag stored for a requested tag: the request itself, or the sentinel when
/// the request is empty.
pub open spec fn effective_name(name: Seq<char>) -> Seq<char> {
    if name.len() == 0 {
        sentinel_name()
    } else {
        name
    }
}

/// The location part of a rendering: the file, then line and column where known.
pub open spec fn render_location(file: Seq<char>, line: u32, column: u32) -> Seq<char> {
    file + (if line > 0 {
        ":"@ + decimal(line as nat)
    } else {
        Seq::empty()
    }) + (if column > 0 {
        ":"@ + decimal(column as nat)
    } else {
        Seq::empty()
    })
}

/// The context part of a rendering: present only for a context that is not blank.
pub open spec fn render_context(context: Option<Seq<char>>) -> Seq<char> {
    match context {
        Some(ctx) => if trim(ctx).len() > 0 {
            "\nContext: "@ + trim(ctx)
        } else {
            Seq::empty()
        },
        None => Seq::empty(),
    }
}

impl CauseView {
    /// The text a cause contributes to the rendering of what it caused.
    pub open spec fn render(self) -> Seq<char>
        decreases self,
    {
        match self {
            CauseView::Chained(e) => e.render(),
            CauseView::Message(m) => m,
        }
    }
}

impl ExceptionView {
    /// The canonical multi-line text of an exception: name, location, context,
    /// then the chain of causes, ending in a newline.
    pub open spec fn render(self) -> Seq<char>
        decreases self,
    {
        "Exception \""@ + self.name + "\" occurs at \""@ + render_location(
            self.file,
            self.line,
            self.column,
        ) + "\""@ + render_context(self.context) + (match self.cause {
            Some(c) => "\nCaused by:\n"@ + c.render(),
            None => Seq::empty(),
        }) + "\n"@
    }
}

impl Cause {
    /// The content of this cause, all the way down its chain.
    pub open spec fn model(&self) -> CauseView
        decreases self,
    {
        match self {
            Cause::Chained(e) => CauseView::Chained(Box::new(e.model())),
            Cause::Message(m) => CauseView::Message(m@),
        }
    }
}

impl View for Cause {
    type V = CauseView;

    open spec fn view(&self) -> CauseView {
        self.model()
    }
}

impl View for Exception {
    type V = ExceptionView;

    open spec fn view(&self) -> ExceptionView {
        self.model()
    }
}

impl Exception {
    /// The name is never empty.
    #[verifier::type_invariant]
    pub closed spec fn named(&self) -> bool {
        self.name@.len() > 0
    }

    /// The content of this exception, all the way down its chain of causes.
    pub closed spec fn model(&self) -> ExceptionView
        decreases self,
    {
        ExceptionView {
            name: self.name@,
            file: self.file@,
            line: self.line,
            column: self.column,
            context: match self.context {
                Some(c) => Some(c@),
                None => None,
            },
            cause: match self.inner {
                Some(c) => Some(c.model()),
                None => None,
            },
        }
    }

    /// A fresh exception under the sentinel name, with no location, context or cause.
    pub fn new() -> (ex: Box<Exception>)
        ensures
            ex@ == (ExceptionView {
                name: sentinel_name(),
                file: Seq::empty(),
                line: 0,
                column: 0,
                context: None,
                cause: None,
            }),
    {
        proof {
            reveal_strlit("Uncategorized");
        }
        Box::new(
            Exception {
                name: String::from_str(UncategorizedException),
                file: String::new(),
                line: 0,
                column: 0,
                context: None,
                inner: None,
            },
        )
    }

    /// A stand-in exception under the name `Dummy`, for a failure that is
    /// expected to be replaced before anyone reads it.
    pub fn dummy() -> (ex: Box<Exception>)
        ensures
            ex@ == (ExceptionView {
                name: DummyException@,
                file: Seq::empty(),
                line: 0,
                column: 0,
                context: None,
                cause: None,
            }),
    {
        proof {
            reveal_strlit("Dummy");
        }
        Box::new(
            Exception {
                name: String::from_str(DummyException),
                file: String::new(),
                line: 0,
                column: 0,
                context: None,
                inner: None,
            },
        )
    }

    /// Records the source file in which the failure was observed.
    #[inline]
    pub fn set_file(&mut self, file: &str) -> (ret: &mut Exception)
        ensures
            (*ret)@ == (ExceptionView { file: file@, ..old(self)@ }),
            *final(self) == *final(ret),
    {
        proof {
            use_type_invariant(&*self);
        }
        self.file = String::from_str(file);
        self
    }

    /// Sets the error-kind tag. An empty tag is never stored: it resets the name
    /// to the sentinel.
    #[inline]
    pub fn set_name(&mut self, name: &str) -> (ret: &mut Exception)
        ensures
            (*ret)@ == (ExceptionView { name: effective_name(name@), ..old(self)@ }),
            *final(self) == *final(ret),
    {
        proof {
            reveal_strlit("Uncategorized");
        }
        if name.is_empty() {
            self.name = String::from_str(UncategorizedException);
        } else {
            self.name = String::from_str(name);
        }
        self
    }

    /// Records the line at which the failure was observed; 0 stands for "unknown".
    #[inline]
    pub fn set_line(&mut self, line: u32) -> (ret: &mut Exception)
        ensures
            (*ret)@ == (ExceptionView { line: line, ..old(self)@ }),
            *final(self) == *final(ret),
    {
        proof {
            use_type_invariant(&*self);
        }
        self.line = line;
        self
    }

    /// Records the column at which the failure was observed; 0 stands for "unknown".
    #[inline]
    pub fn set_column(&mut self, column: u32) -> (ret: &mut Exception)
        ensures
            (*ret)@ == (ExceptionView { column: column, ..old(self)@ }),
            *final(self) == *final(ret),
    {
        proof {
            use_type_invariant(&*self);
        }
        self.column = column;
        self
    }

    /// Attaches the call site's explanation.
    #[inline]
    pub fn set_context(&mut self, ctx: &str) -> (ret: &mut Exception)
        ensures
            (*ret)@ == (ExceptionView { context: Some(ctx@), ..old(self)@ }),
            *final(self) == *final(ret),
    {
        proof {
            use_type_invariant(&*self);
        }
        self.context = Some(String::from_str(ctx));
        self
    }

    /// Takes ownership of the earlier failure that led to this one.
    #[inline]
    pub fn set_caused_by(&mut self, err: Cause) -> (ret: &mut Exception)
        ensures
            (*ret)@ == (ExceptionView { cause: Some(err@), ..old(self)@ }),
            *final(self) == *final(ret),
    {
        proof {
            use_type_invariant(&*self);
        }
        self.inner = Some(err);
        self
    }

    /// The error-kind tag.
    #[inline]
    pub fn get_name(&self) -> (name: &str)
        ensures
            name@ == self@.name,
            name@.len() > 0,
    {
        proof {
            use_type_invariant(self);
        }
        self.name.as_str()
    }

    /// The call site's explanation, if one was attached.
    #[inline]
    pub fn get_context(&self) -> (ctx: Option<&str>)
        ensures
            match ctx {
                Some(c) => self@.context == Some(c@),
                None => self@.context is None,
            },
    {
        match &self.context {
            Some(ctx) => Some(ctx.as_str()),
            None => None,
        }
    }

    /// The canonical text of this exception and of everything that caused it.
    pub fn render(&self) -> (text: String)
        ensures
            text@ == self@.render(),
        decreases self,
    {
        let mut msg = String::from_str("Exception \"");
        msg.append(self.name.as_str());
        msg.append("\" occurs at \"");
        msg.append(self.file.as_str());
        let ghost at_file = msg@;
        if self.line > 0 {
            msg.append(":");
            let digits = u32_to_decimal(self.line);
            msg.append(digits.as_str());
        }
        let ghost at_line = msg@;
        if self.column > 0 {
            msg.append(":");
            let digits = u32_to_decimal(self.column);
            msg.append(digits.as_str());
        }
        assert(msg@ =~= "Exception \""@ + self@.name + "\" occurs at \""@ + render_location(
            self@.file,
            self@.line,
            self@.column,
        ));
        msg.append("\"");
        let ghost at_location = msg@;
        match &self.context {
            Some(ctx) => {
                let trimmed = trim_str(ctx.as_str());
                if !trimmed.is_empty() {
                    msg.append("\nContext: ");
                    msg.append(trimmed);
                }
            },
            None => {},
        }
        assert(msg@ =~= at_location + render_context(self@.context));
        let ghost at_context = msg@;
        match &self.inner {
            Some(Cause::Chained(cause)) => {
                msg.append("\nCaused by:\n");
                let inner = cause.render();
                msg.append(inner.as_str());
                assert(msg@ =~= at_context + ("\nCaused by:\n"@ + self@.cause->0.render()));
            },
            Some(Cause::Message(cause)) => {
                msg.append("\nCaused by:\n");
                msg.append(cause.as_str());
                assert(msg@ =~= at_context + ("\nCaused by:\n"@ + self@.cause->0.render()));
            },
            None => {
                assert(msg@ =~= at_context + Seq::<char>::empty());
            },
        }
        msg.append("\n");
        msg
    }
}

impl Exception {
    /// The text shown to users: the rendering.
    pub fn to_string(&self) -> (text: String)
        ensures
            text@ == self@.render(),
    {
        self.render()
    }

    /// The text shown in diagnostics: the same rendering as for users.
    pub fn to_debug_string(&self) -> (text: String)
        ensures
            text@ == self@.render(),
    {
        self.render()
    }
}

/// The exception that a capturing adapter builds at a call site.
pub open spec fn captured(
    name: Seq<char>,
    ctx: Seq<char>,
    file: Seq<char>,
    line: u32,
    column: u32,
    cause: Option<CauseView>,
) -> ExceptionView {
    ExceptionView {
        name: effective_name(name),
        file: file,
        line: line,
        column: column,
        context: Some(ctx),
        cause: cause,
    }
}

/// Builds an exception named `name`, explained by `ctx`, observed at the given
/// call site, with no cause.
pub fn exception(name: &str, ctx: &str, file: &str, line: u32, column: u32) -> (ex: Box<Exception>)
    ensures
        ex@ == captured(name@, ctx@, file@, line, column, None),
{
    let mut ex = Exception::new();
    ex.set_name(name).set_file(file).set_line(line).set_column(column).set_context(ctx);
    ex
}

/// Builds an exception as [`exception`] does and hands it back as a failure, so
/// that `return throw(..)` leaves the enclosing operation at once.
pub fn throw<T>(name: &str, ctx: &str, file: &str, line: u32, column: u32) -> (out: Outcome<T>)
    ensures
        out is Err,
        out->Err_0@ == captured(name@, ctx@, file@, line, column, None),
{
    Err(exception(name, ctx, file, line, column))
}

/// The context that a failed assertion reports: the condition's source text,
/// then the explanation if there is one.
pub open spec fn assertion_context(condition: Seq<char>, explanation: Option<Seq<char>>) -> Seq<
    char,
> {
    match explanation {
        Some(e) => "Condition: "@ + condition + "\nExplanation: "@ + e,
        None => "Condition: "@ + condition,
    }
}

/// The name under which a failed assertion is reported.
pub open spec fn assertion_name(name: Option<Seq<char>>) -> Seq<char> {
    match name {
        Some(n) => n,
        None => AssertionFailedException@,
    }
}

/// Succeeds when `cond` holds; otherwise fails with an exception whose context
/// quotes `condition`, the source text of what was tested, and the explanation.
pub fn assert_throw(
    cond: bool,
    condition: &str,
    name: Option<&str>,
    explanation: Option<&str>,
    file: &str,
    line: u32,
    column: u32,
) -> (out: Outcome<()>)
    ensures
        cond ==> out is Ok,
        !cond ==> out is Err && out->Err_0@ == captured(
            assertion_name(
                match name {
                    Some(n) => Some(n@),
                    None => None,
                },
            ),
            assertion_context(
                condition@,
                match explanation {
                    Some(e) => Some(e@),
                    None => None,
                },
            ),
            file@,
            line,
            column,
            None,
        ),
{
    if cond {
        return Ok(());
    }
    let mut ctx = String::from_str("Condition: ");
    ctx.append(condition);
    match explanation {
        Some(e) => {
            ctx.append("\nExplanation: ");
            ctx.append(e);
        },
        None => {},
    }
    let tag = match name {
        Some(n) => n,
        None => AssertionFailedException,
    };
    throw(tag, ctx.as_str(), file, line, column)
}

/// Turns any failure into an [`Outcome`], recording where it was observed.
///
/// The failure may be anything that can be displayed, whose text then becomes
/// the cause, or the exception of an earlier [`Outcome`], which is chained.
pub trait TraitStdResultToOutcome<T, E> {
    /// What this value holds, as a plain `Result`.
    spec fn as_result(self) -> Result<T, E>;

    /// Whether `cause` is what the failure `e` becomes when it is wrapped.
    spec fn is_cause(e: E, cause: CauseView) -> bool;

    /// Passes a success through; wraps a failure in a new exception named `name`,
    /// explained by `ctx`, located at the given call site, whose cause is that
    /// failure.
    fn catch(self, name: &str, ctx: &str, file: &str, line: u32, column: u32) -> (out: Outcome<T>)
        ensures
            match self.as_result() {
                Ok(v) => out == Ok::<T, Box<Exception>>(v),
                Err(e) => {
                    &&& out is Err
                    &&& out->Err_0@.cause is Some
                    &&& Self::is_cause(e, out->Err_0@.cause->0)
                    &&& out->Err_0@ == captured(
                        name@,
                        ctx@,
                        file@,
                        line,
                        column,
                        out->Err_0@.cause,
                    )
                },
            },
    ;

    /// As [`catch`](Self::catch) with an empty name and an empty context: the
    /// chain grows by one located node under the sentinel name.
    fn catch_(self, file: &str, line: u32, column: u32) -> (out: Outcome<T>)
        ensures
            match self.as_result() {
                Ok(v) => out == Ok::<T, Box<Exception>>(v),
                Err(e) => {
                    &&& out is Err
                    &&& out->Err_0@.cause is Some
                    &&& Self::is_cause(e, out->Err_0@.cause->0)
                    &&& out->Err_0@ == captured(
                        Seq::empty(),
                        Seq::empty(),
                        file@,
                        line,
                        column,
                        out->Err_0@.cause,
                    )
                },
            },
    ;
}

impl<T, E: core::fmt::Display> TraitStdResultToOutcome<T, E> for Result<T, E> {
    open spec fn as_result(self) -> Result<T, E> {
        self
    }

    /// The cause is the text that displaying the failure gives.
    open spec fn is_cause(e: E, cause: CauseView) -> bool {
        exists|text: String| #[trigger]
            to_string_from_display_ensures::<E>(&e, text) && cause == CauseView::Message(text@)
    }

    fn catch(self, name: &str, ctx: &str, file: &str, line: u32, column: u32) -> (out: Outcome<T>) {
        match self {
            Ok(v) => Ok(v),
            Err(e) => {
                let text = e.to_string();
                let mut ex = exception(name, ctx, file, line, column);
                ex.set_caused_by(Cause::Message(text));
                Err(ex)
            },
        }
    }

    fn catch_(self, file: &str, line: u32, column: u32) -> (out: Outcome<T>) {
        proof {
            reveal_strlit("");
        }
        let out = self.catch("", "", file, line, column);
        assert(""@ =~= Seq::<char>::empty());
        out
    }
}

impl<T> TraitStdResultToOutcome<T, Box<Exception>> for Result<T, Box<Exception>> {
    open spec fn as_result(self) -> Result<T, Box<Exception>> {
        self
    }

    /// The cause is the earlier exception itself.
    open spec fn is_cause(e: Box<Exception>, cause: CauseView) -> bool {
        cause == CauseView::Chained(Box::new(e@))
    }

    fn catch(self, name: &str, ctx: &str, file: &str, line: u32, column: u32) -> (out: Outcome<T>) {
        match self {
            Ok(v) => Ok(v),
            Err(e) => {
                let mut ex = exception(name, ctx, file, line, column);
                ex.set_caused_by(Cause::Chained(e));
                Err(ex)
            },
        }
    }

    fn catch_(self, file: &str, line: u32, column: u32) -> (out: Outcome<T>) {
        proof {
            reveal_strlit("");
        }
        let out = self.catch("", "", file, line, column);
        assert(""@ =~= Seq::<char>::empty());
        out
    }
}

/// Turns an absent value into an [`Outcome`] failure, recording where the
/// absence was observed.
pub trait TraitStdOptionToOutcome<T> {
    /// What this value holds, as a plain `Option`.
    spec fn as_option(self) -> Option<T>;

    /// Hands out the value if there is one; otherwise fails with a new exception
    /// named `name`, explained by `ctx`, located at the given call site, without
    /// a cause.
    fn ifnone(self, name: &str, ctx: &str, file: &str, line: u32, column: u32) -> (out: Outcome<T>)
        ensures
            match self.as_option() {
                Some(v) => out == Ok::<T, Box<Exception>>(v),
                None => out is Err && out->Err_0@ == captured(
                    name@,
                    ctx@,
                    file@,
                    line,
                    column,
                    None,
                ),
            },
    ;

    /// As [`ifnone`](Self::ifnone) with an empty name and an empty context.
    fn ifnone_(self, file: &str, line: u32, column: u32) -> (out: Outcome<T>)
        ensures
            match self.as_option() {
                Some(v) => out == Ok::<T, Box<Exception>>(v),
                None => out is Err && out->Err_0@ == captured(
                    Seq::empty(),
                    Seq::empty(),
                    file@,
                    line,
                    column,
                    None,
                ),
            },
    ;
}

impl<T> TraitStdOptionToOutcome<T> for Option<T> {
    open spec fn as_option(self) -> Option<T> {
        self
    }

    fn ifnone(self, name: &str, ctx: &str, file: &str, line: u32, column: u32) -> (out: Outcome<T>) {
        match self {
            Some(t) => Ok(t),
            None => throw(name, ctx, file, line, column),
        }
    }

    fn ifnone_(self, file: &str, line: u32, column: u32) -> (out: Outcome<T>) {
        proof {
            reveal_strlit("");
        }
        let out = self.ifnone("", "", file, line, column);
        assert(""@ =~= Seq::<char>::empty());
        out
    }
}

/// Whether `needle` occurs somewhere in `text`.
pub open spec fn occurs_in(needle: Seq<char>, text: Seq<char>) -> bool {
    exists|i: int|
        0 <= i && i + needle.len() <= text.len() && #[trigger] text.subrange(
            i,
            i + needle.len(),
        ) == needle
}

/// The rendering of an exception shows its name.
pub proof fn lemma_render_shows_name(ex: ExceptionView)
    ensures
        occurs_in(ex.name, ex.render()),
{
    let lead = "Exception \""@;
    let text = ex.render();
    assert(text.subrange(lead.len() as int, (lead.len() + ex.name.len()) as int) =~= ex.name);
}

/// The rendering of an exception ends in a newline.
pub proof fn lemma_render_ends_in_newline(ex: ExceptionView)
    ensures
        ex.render().len() > 0,
        ex.render().last() == '\n',
{
    reveal_strlit("\n");
}

/// The rendering of an exception that was never given a name of its own shows
/// the sentinel name, which is not empty.
pub proof fn lemma_unnamed_renders_sentinel(ex: ExceptionView)
    requires
        ex.name == sentinel_name(),
    ensures
        sentinel_name().len() > 0,
        occurs_in(sentinel_name(), ex.render()),
{
    reveal_strlit("Uncategorized");
    lemma_render_shows_name(ex);
}

/// The rendering of an exception shows its context, trimmed, wherever the
/// context is not blank.
pub proof fn lemma_render_shows_context(ex: ExceptionView)
    requires
        ex.context is Some,
        trim(ex.context->0).len() > 0,
    ensures
        occurs_in(trim(ex.context->0), ex.render()),
{
    let shown = trim(ex.context->0);
    let before = "Exception \""@ + ex.name + "\" occurs at \""@ + render_location(
        ex.file,
        ex.line,
        ex.column,
    ) + "\""@ + "\nContext: "@;
    let text = ex.render();
    assert(text.subrange(before.len() as int, (before.len() + shown.len()) as int) =~= shown);
}

/// The name stored for a requested name is never empty.
pub proof fn lemma_effective_name_present(name: Seq<char>)
    ensures
        effective_name(name).len() > 0,
{
    reveal_strlit("Uncategorized");
}

/// The failure reported for an absent value carries the name and the context
/// that the call site gave, provided the name is not empty, and its rendering
/// shows the name and, trimmed, any context that is not blank.
pub proof fn lemma_absent_value_failure(
    name: Seq<char>,
    ctx: Seq<char>,
    file: Seq<char>,
    line: u32,
    column: u32,
)
    requires
        name.len() > 0,
    ensures
        captured(name, ctx, file, line, column, None).name == name,
        captured(name, ctx, file, line, column, None).context == Some(ctx),
        captured(name, ctx, file, line, column, None).cause is None,
        occurs_in(name, captured(name, ctx, file, line, column, None).render()),
        trim(ctx).len() > 0 ==> occurs_in(
            trim(ctx),
            captured(name, ctx, file, line, column, None).render(),
        ),
{
    let failure = captured(name, ctx, file, line, column, None);
    lemma_render_shows_name(failure);
    if trim(ctx).len() > 0 {
        lemma_render_shows_context(failure);
    }
}

} // verus!
