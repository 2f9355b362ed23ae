use vstd::prelude::*;

verus! {

/// Why an operation could not run.
#[derive(Debug, Clone, Copy, PartialEq, Eq, Structural)]
pub enum OperationError {
    /// The operation was never bound to a context,
    Unbound,
}

/// A top-level node: a name, an optional tag, and the context it runs in once bound.
pub struct Operation<C> {
    name: String,
    tag: Option<String>,
    context: Option<C>,
}

pub struct OperationView<C> {
    pub name: Seq<char>,
    pub tag: Option<Seq<char>>,
    pub context: Option<C>,
}

impl<C> View for Operation<C> {
    type V = OperationView<C>;

    closed spec fn view(&self) -> OperationView<C> {
        OperationView {
            name: self.name@,
            tag: match self.tag { Some(t) => Some(t@), None => None },
            context: self.context,
        }
    }
}

/// The address of an operation: its name, followed by `#` and its tag when it has one.
pub open spec fn address_spec(name: Seq<char>, tag: Option<Seq<char>>) -> Seq<char> {
    match tag {
        Some(t) => name + "#"@ + t,
        None => name,
    }
}

impl<C> Operation<C> {
    /// Creates a new operation, not bound to any context.
    pub fn new(name: String, tag: Option<String>) -> (o: Operation<C>)
        ensures
            o@.name == name@,
            o@.tag == (match tag { Some(t) => Some(t@), None => None::<Seq<char>> }),
            o@.context is None,
    {
        Operation { name, tag, context: None }
    }

    /// Returns the address to use with this operation.
    pub fn address(&self) -> (a: String)
        ensures
            a@ == address_spec(self@.name, self@.tag),
    {
        match &self.tag {
            Some(tag) => {
                let mut a = self.name.clone();
                a.append("#");
                a.append(tag.as_str());
                proof {
                    reveal_strlit("#");
                }
                a
            },
            None => self.name.clone(),
        }
    }

    /// Binds the operation to a context, replacing any earlier one.
    pub fn bind(&mut self, context: C)
        ensures
            final(self)@.name == old(self)@.name,
            final(self)@.tag == old(self)@.tag,
            final(self)@.context == Some(context),
    {
        self.context = Some(context);
    }

    /// The context that a run starts from: the bound one, or `Unbound`.
    pub fn start(&self) -> (r: Result<&C, OperationError>)
        ensures
            match self@.context {
                Some(c) => r == Ok::<&C, OperationError>(&c),
                None => r == Err::<&C, OperationError>(OperationError::Unbound),
            },
    {
        match &self.context {
            Some(c) => Ok(c),
            None => Err(OperationError::Unbound),
        }
    }
}

/// The context that a run goes on with after one plugin call: the context the
/// call handed back, or the one it was given when it handed back none. An
/// error ends the run.
pub open spec fn next_context<C, E>(previous: C, outcome: Result<Option<C>, E>) -> Result<C, E> {
    match outcome {
        Ok(Some(c)) => Ok(c),
        Ok(None) => Ok(previous),
        Err(e) => Err(e),
    }
}

/// One step of running an operation over its attributes.
pub fn fold_step<C, E>(previous: C, outcome: Result<Option<C>, E>) -> (r: Result<C, E>)
    ensures
        r == next_context(previous, outcome),
{
    match outcome {
        Ok(Some(c)) => Ok(c),
        Ok(None) => Ok(previous),
        Err(e) => Err(e),
    }
}

/// What a plugin handed back once its work is over: a spawned task with what
/// joining it gave (none when no task could be spawned), an abort, or a skip.
pub enum PluginOutput<C, E> {
    /// The plugin spawned a task; the outer result is the join, the inner one the task's,
    Spawn(Option<Result<Result<C, E>, E>>),
    /// The plugin decided to abort further execution,
    Abort(Result<(), E>),
    /// The plugin passes,
    Skip,
}

/// What a finished plugin output resolves to: the context a task handed back,
/// none when there was no task, the task failed, the plugin skipped or aborted
/// without error; an error when joining failed or the plugin aborted with one.
pub open spec fn resolved<C, E>(output: PluginOutput<C, E>) -> Result<Option<C>, E> {
    match output {
        PluginOutput::Spawn(None) => Ok(None),
        PluginOutput::Spawn(Some(Err(join_error))) => Err(join_error),
        PluginOutput::Spawn(Some(Ok(Ok(c)))) => Ok(Some(c)),
        PluginOutput::Spawn(Some(Ok(Err(_)))) => Ok(None),
        PluginOutput::Abort(Ok(())) => Ok(None),
        PluginOutput::Abort(Err(e)) => Err(e),
        PluginOutput::Skip => Ok(None),
    }
}

impl<C, E> PluginOutput<C, E> {
    /// Resolves a finished plugin output.
    pub fn resolve(self) -> (r: Result<Option<C>, E>)
        ensures
            r == resolved(self),
    {
        match self {
            PluginOutput::Spawn(None) => Ok(None),
            PluginOutput::Spawn(Some(Err(join_error))) => Err(join_error),
            PluginOutput::Spawn(Some(Ok(Ok(c)))) => Ok(Some(c)),
            PluginOutput::Spawn(Some(Ok(Err(_)))) => Ok(None),
            PluginOutput::Abort(Ok(())) => Ok(None),
            PluginOutput::Abort(Err(e)) => Err(e),
            PluginOutput::Skip => Ok(None),
        }
    }
}

/// A plugin that skips, or whose task failed, leaves the run where it was:
/// the next plugin starts from the same context.
pub proof fn law_skip_keeps_context<C, E>(previous: C, output: PluginOutput<C, E>)
    requires
        output matches PluginOutput::Skip || output matches PluginOutput::Spawn(Some(Ok(Err(_)))),
    ensures
        next_context(previous, resolved(output)) == Ok::<C, E>(previous),
{
}

} // verus!
