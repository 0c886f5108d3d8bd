//! Source locations and the diagnostics that semantic analysis reports.

use vstd::prelude::*;

verus! {

/// A code location: a byte range of a source file, or one of the places
/// that are not in any file.
#[derive(Clone, Copy, Debug, PartialEq, Eq, Structural)]
pub enum Loc {
    Builtin,
    CommandLine,
    Implicit,
    Codegen,
    /// The file number, start offset and end offset in bytes of the source file.
    File(usize, usize, usize),
}

impl Loc {
    /// The start of a file location; other locations have none.
    pub fn start(&self) -> (res: usize)
        requires
            self is File,
        ensures
            res == self->File_1,
    {
        match self {
            Loc::File(_, start, _) => *start,
            _ => 0,
        }
    }

    /// `self` with the end offset of `other`, where both are file locations.
    pub open spec fn with_end_from(self, other: Loc) -> Loc {
        match (self, other) {
            (Loc::File(file_no, start, _), Loc::File(_, _, end)) => Loc::File(file_no, start, end),
            _ => self,
        }
    }

    /// Take the end offset of `other` where both are file locations.
    pub fn use_end_from(&mut self, other: &Loc)
        ensures
            *final(self) == old(self).with_end_from(*other),
    {
        if let Loc::File(file_no, start, _) = *self {
            if let Loc::File(_, _, end) = *other {
                *self = Loc::File(file_no, start, end);
            }
        }
    }
}

/// The level of a diagnostic.
#[derive(Clone, Copy, Debug, PartialEq, Eq, Structural)]
pub enum Level {
    Debug,
    Info,
    Warning,
    Error,
}

/// The type of a diagnostic.
#[derive(Clone, Copy, Debug, PartialEq, Eq, Structural)]
pub enum ErrorType {
    Unclassified,
    ParserError,
    SyntaxError,
    DeclarationError,
    CastError,
    TypeError,
    Warning,
}

/// The value of a diagnostic as contracts speak of it: where, how severe,
/// what kind, the message, and the notes, each a location and a message.
pub struct DiagnosticView {
    pub loc: Loc,
    pub level: Level,
    pub ty: ErrorType,
    pub message: Seq<char>,
    pub notes: Seq<(Loc, Seq<char>)>,
}

/// A note that a diagnostic points to: where, and what it says.
#[derive(Debug)]
pub struct Note {
    pub loc: Loc,
    pub message: String,
}

/// A diagnostic: where, how severe, what kind, the message, and its notes.
#[derive(Debug)]
pub struct Diagnostic {
    pub loc: Loc,
    pub level: Level,
    pub ty: ErrorType,
    pub message: String,
    pub notes: Vec<Note>,
}

/// The views of notes.
pub open spec fn view_notes(notes: Seq<Note>) -> Seq<(Loc, Seq<char>)> {
    notes.map_values(|n: Note| (n.loc, n.message@))
}

impl View for Diagnostic {
    type V = DiagnosticView;

    open spec fn view(&self) -> DiagnosticView {
        DiagnosticView { loc: self.loc, level: self.level, ty: self.ty, message: self.message@, notes: view_notes(self.notes@) }
    }
}

/// The view of a syntax error at `loc` saying `message`.
pub open spec fn error_view(loc: Loc, message: Seq<char>) -> DiagnosticView {
    DiagnosticView { loc, level: Level::Error, ty: ErrorType::SyntaxError, message, notes: Seq::empty() }
}

/// The view of a syntax error at `loc` saying `message`, with one note.
pub open spec fn error_with_note_view(loc: Loc, message: Seq<char>, note_loc: Loc, note: Seq<char>) -> DiagnosticView {
    DiagnosticView { loc, level: Level::Error, ty: ErrorType::SyntaxError, message, notes: seq![(note_loc, note)] }
}

/// The view of a cast error at `loc` saying `message`.
pub open spec fn cast_error_view(loc: Loc, message: Seq<char>) -> DiagnosticView {
    DiagnosticView { loc, level: Level::Error, ty: ErrorType::CastError, message, notes: Seq::empty() }
}

/// The view of a warning at `loc` saying `message`.
pub open spec fn warning_view(loc: Loc, message: Seq<char>) -> DiagnosticView {
    DiagnosticView { loc, level: Level::Warning, ty: ErrorType::Warning, message, notes: Seq::empty() }
}

impl Diagnostic {
    /// A syntax error.
    pub fn error(loc: Loc, message: String) -> (res: Diagnostic)
        ensures
            res@ == error_view(loc, message@),
    {
        let res = Diagnostic { loc, level: Level::Error, ty: ErrorType::SyntaxError, message, notes: Vec::new() };
        assert(view_notes(res.notes@) =~= Seq::empty());
        res
    }

    /// A syntax error with a note.
    pub fn error_with_note(loc: Loc, message: String, note_loc: Loc, note: String) -> (res: Diagnostic)
        ensures
            res@ == error_with_note_view(loc, message@, note_loc, note@),
    {
        let res = Diagnostic {
            loc,
            level: Level::Error,
            ty: ErrorType::SyntaxError,
            message,
            notes: vec![Note { loc: note_loc, message: note }],
        };
        assert(view_notes(res.notes@) =~= seq![(note_loc, note@)]);
        res
    }

    /// A cast error.
    pub fn cast_error(loc: Loc, message: String) -> (res: Diagnostic)
        ensures
            res@ == cast_error_view(loc, message@),
    {
        let res = Diagnostic { loc, level: Level::Error, ty: ErrorType::CastError, message, notes: Vec::new() };
        assert(view_notes(res.notes@) =~= Seq::empty());
        res
    }

    /// A warning.
    pub fn warning(loc: Loc, message: String) -> (res: Diagnostic)
        ensures
            res@ == warning_view(loc, message@),
    {
        let res = Diagnostic { loc, level: Level::Warning, ty: ErrorType::Warning, message, notes: Vec::new() };
        assert(view_notes(res.notes@) =~= Seq::empty());
        res
    }

    /// A copy of this diagnostic.
    pub fn copy(&self) -> (res: Diagnostic)
        ensures
            res@ == self@,
    {
        let mut notes: Vec<Note> = Vec::new();
        let mut i: usize = 0;
        while i < self.notes.len()
            invariant
                i <= self.notes@.len(),
                view_notes(notes@) == view_notes(self.notes@.take(i as int)),
            decreases self.notes@.len() - i,
        {
            let n = &self.notes[i];
            let ghost before = notes@;
            notes.push(Note { loc: n.loc, message: n.message.clone() });
            assert(view_notes(notes@) =~= view_notes(before).push((self.notes@[i as int].loc, self.notes@[i as int].message@)));
            assert(self.notes@.take(i + 1) =~= self.notes@.take(i as int).push(self.notes@[i as int]));
            assert(view_notes(self.notes@.take(i + 1)) =~= view_notes(self.notes@.take(i as int)).push(
                (self.notes@[i as int].loc, self.notes@[i as int].message@),
            ));
            i = i + 1;
        }
        assert(self.notes@.take(i as int) =~= self.notes@);
        Diagnostic { loc: self.loc, level: self.level, ty: self.ty, message: self.message.clone(), notes }
    }
}

/// The diagnostics collected so far, in the order they were reported.
#[derive(Debug)]
pub struct Diagnostics {
    contents: Vec<Diagnostic>,
}

impl View for Diagnostics {
    type V = Seq<DiagnosticView>;

    closed spec fn view(&self) -> Seq<DiagnosticView> {
        self.contents@.map_values(|d: Diagnostic| d@)
    }
}

impl Diagnostics {
    /// No diagnostics.
    pub fn new() -> (res: Diagnostics)
        ensures
            res@ == Seq::<DiagnosticView>::empty(),
    {
        let res = Diagnostics { contents: Vec::new() };
        assert(res@ =~= Seq::<DiagnosticView>::empty());
        res
    }

    /// Report one more diagnostic.
    pub fn push(&mut self, diagnostic: Diagnostic)
        ensures
            final(self)@ == old(self)@.push(diagnostic@),
    {
        self.contents.push(diagnostic);
        assert(self@ =~= old(self)@.push(diagnostic@));
    }

    /// Report all of `other` after what was reported here.
    pub fn extend(&mut self, other: Diagnostics)
        ensures
            final(self)@ == old(self)@ + other@,
    {
        let mut rest = other.contents;
        let ghost items = rest@;
        let mut i: usize = 0;
        assert(old(self)@ + items.take(0).map_values(|d: Diagnostic| d@) =~= old(self)@);
        while i < rest.len()
            invariant
                i <= rest@.len(),
                rest@ == items,
                self@ == old(self)@ + items.take(i as int).map_values(|d: Diagnostic| d@),
            decreases rest@.len() - i,
        {
            let d = rest[i].copy();
            self.push(d);
            i = i + 1;
            assert(items.take(i as int).map_values(|d: Diagnostic| d@)
                =~= items.take(i - 1).map_values(|d: Diagnostic| d@).push(items[i - 1]@));
        }
        assert(items.take(i as int) =~= items);
    }

    /// Whether nothing was reported.
    pub fn is_empty(&self) -> (res: bool)
        ensures
            res == (self@.len() == 0),
    {
        self.contents.len() == 0
    }

    /// How many diagnostics were reported.
    pub fn len(&self) -> (res: usize)
        ensures
            res == self@.len(),
    {
        self.contents.len()
    }

    /// Whether an error was reported.
    pub fn any_errors(&self) -> (res: bool)
        ensures
            res == exists|i: int| 0 <= i < self@.len() && #[trigger] self@[i].level == Level::Error,
    {
        let mut i: usize = 0;
        while i < self.contents.len()
            invariant
                i <= self.contents.len(),
                forall|j: int| 0 <= j < i ==> #[trigger] self@[j].level != Level::Error,
            decreases self.contents.len() - i,
        {
            if self.contents[i].level == Level::Error {
                assert(self@[i as int].level == Level::Error);
                return true;
            }
            i = i + 1;
        }
        false
    }

    /// The diagnostic at `index`.
    pub fn get(&self, index: usize) -> (res: &Diagnostic)
        requires
            index < self@.len(),
        ensures
            res@ == self@[index as int],
    {
        &self.contents[index]
    }
}

impl Default for Diagnostics {
    fn default() -> (res: Diagnostics)
        ensures
            res@ == Seq::<DiagnosticView>::empty(),
    {
        Diagnostics::new()
    }
}

} // verus!
