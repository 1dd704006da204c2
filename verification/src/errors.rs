use vstd::prelude::*;

verus! {

/// Where an error was found: file name, line and column.
#[derive(Debug)]
pub struct Position {
    pub filename: String,
    pub line: usize,
    pub column: usize,
}

/// A position taken by value: file name as characters, line and column.
pub ghost struct PositionView {
    pub filename: Seq<char>,
    pub line: usize,
    pub column: usize,
}

impl View for Position {
    type V = PositionView;

    open spec fn view(&self) -> PositionView {
        PositionView { filename: self.filename@, line: self.line, column: self.column }
    }
}

impl Position {
    pub fn new(filename: String, line: usize, column: usize) -> (res: Self)
        ensures
            res@ == (PositionView { filename: filename@, line, column }),
    {
        Position { filename, line, column }
    }
}

/// What is wrong with one parameter of a command.
#[derive(Debug, Clone, Copy, PartialEq, Eq, Structural)]
pub enum ParameterError {
    /// The parameter is not of the kind the command takes.
    UnexpectedType,
    /// The parameter has the right kind but a value the command cannot encode.
    OutOfRange,
}

/// Why a command refused the parameters it was given.
#[derive(Debug, Clone, Copy, PartialEq, Eq, Structural)]
pub enum OperationError {
    TooManyParameters,
    MissingRequiredParameters,
    Parameter(ParameterError),
}

/// An error of compilation, with the position where it was found.
#[derive(Debug)]
pub enum CompileError {
    /// A character or a construct that the syntax does not allow here.
    Syntax(Position, String),
    /// A word that is neither a known command nor a parameter of one.
    UnknownOperation(Position, String),
    /// A command that refused its parameters.
    Operation(Position, String, OperationError),
}

/// A compile error taken by value.
pub ghost enum CompileErrorView {
    Syntax(PositionView, Seq<char>),
    UnknownOperation(PositionView, Seq<char>),
    Operation(PositionView, Seq<char>, OperationError),
}

impl View for CompileError {
    type V = CompileErrorView;

    open spec fn view(&self) -> CompileErrorView {
        match self {
            CompileError::Syntax(p, s) => CompileErrorView::Syntax(p@, s@),
            CompileError::UnknownOperation(p, s) => CompileErrorView::UnknownOperation(p@, s@),
            CompileError::Operation(p, s, e) => CompileErrorView::Operation(p@, s@, *e),
        }
    }
}

/// The position of a compile error.
pub open spec fn error_position(e: CompileErrorView) -> PositionView {
    match e {
        CompileErrorView::Syntax(p, _) => p,
        CompileErrorView::UnknownOperation(p, _) => p,
        CompileErrorView::Operation(p, _, _) => p,
    }
}

/// The same error with its position's file name replaced.
pub open spec fn error_with_filename(e: CompileErrorView, filename: Seq<char>) -> CompileErrorView {
    match e {
        CompileErrorView::Syntax(p, s) => CompileErrorView::Syntax(
            PositionView { filename, ..p },
            s,
        ),
        CompileErrorView::UnknownOperation(p, s) => CompileErrorView::UnknownOperation(
            PositionView { filename, ..p },
            s,
        ),
        CompileErrorView::Operation(p, s, o) => CompileErrorView::Operation(
            PositionView { filename, ..p },
            s,
            o,
        ),
    }
}

impl CompileError {
    /// A syntax error at `line`, `column` with no file name.
    pub fn syntax(line: usize, column: usize, explanation: String) -> (res: Self)
        ensures
            res@ == CompileErrorView::Syntax(
                PositionView { filename: Seq::empty(), line, column },
                explanation@,
            ),
    {
        CompileError::Syntax(Position::new(String::new(), line, column), explanation)
    }

    /// An unknown-operation error for `name` at `line`, `column` with no file name.
    pub fn unknown(line: usize, column: usize, name: String) -> (res: Self)
        ensures
            res@ == CompileErrorView::UnknownOperation(
                PositionView { filename: Seq::empty(), line, column },
                name@,
            ),
    {
        CompileError::UnknownOperation(Position::new(String::new(), line, column), name)
    }

    /// An error of the command `name` at `line`, `column` with no file name.
    pub fn operation(line: usize, column: usize, name: String, error: OperationError) -> (res:
        Self)
        ensures
            res@ == CompileErrorView::Operation(
                PositionView { filename: Seq::empty(), line, column },
                name@,
                error,
            ),
    {
        CompileError::Operation(Position::new(String::new(), line, column), name, error)
    }

    /// The same error, found in the file `filename`.
    pub fn with_filename(self, filename: String) -> (res: Self)
        ensures
            res@ == error_with_filename(self@, filename@),
    {
        match self {
            CompileError::Syntax(p, s) => CompileError::Syntax(
                Position::new(filename, p.line, p.column),
                s,
            ),
            CompileError::UnknownOperation(p, s) => CompileError::UnknownOperation(
                Position::new(filename, p.line, p.column),
                s,
            ),
            CompileError::Operation(p, s, o) => CompileError::Operation(
                Position::new(filename, p.line, p.column),
                s,
                o,
            ),
        }
    }
}

} // verus!
