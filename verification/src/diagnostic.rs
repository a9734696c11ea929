//! User facing diagnostics that parsing and resolving a template may report.
use vstd::prelude::*;

use crate::span::ByteSpan;

verus! {

/// The level of severity a diagnostic can have.
#[derive(Debug, Clone, Copy, PartialEq, Eq, Hash, Structural)]
pub enum DiagnosticLevel {
    /// The diagnostic is an error.
    Error,
    /// The diagnostic is a warning.
    Warning,
}

/// All spans related to one diagnostic.
///
/// The primary spans indicate where the problem lies, while the labeled spans
/// are hints and extra information.
#[derive(Debug)]
pub struct DiagnosticSpan {
    /// Primary spans, displayed with `^` below the spanned text.
    pub primary: Vec<ByteSpan>,
    /// Labeled spans, displayed with `-` below the spanned text together with the label.
    pub labels: Vec<(ByteSpan, String)>,
}

/// The mathematical content of a [`DiagnosticSpan`]: primary spans and labeled spans.
pub type SpanData = (Seq<ByteSpan>, Seq<(ByteSpan, Seq<char>)>);

/// The mathematical content of a diagnostic: level, message, spans and description.
pub type DiagData = (DiagnosticLevel, Seq<char>, Option<SpanData>, Option<Seq<char>>);

impl DiagnosticSpan {
    /// The primary spans and the labels with their text.
    pub open spec fn data(&self) -> SpanData {
        (self.primary@, self.labels@.map_values(|l: (ByteSpan, String)| (l.0, l.1@)))
    }
}

/// The spans of `span` with `s` added as primary span.
pub open spec fn add_primary(span: Option<SpanData>, s: ByteSpan) -> Option<SpanData> {
    match span {
        Some(d) => Some((d.0.push(s), d.1)),
        None => Some((seq![s], seq![])),
    }
}

/// The spans of `span` with `s` added as labeled span.
pub open spec fn add_label(span: Option<SpanData>, s: ByteSpan, label: Seq<char>) -> Option<SpanData> {
    match span {
        Some(d) => Some((d.0, d.1.push((s, label)))),
        None => Some((seq![], seq![(s, label)])),
    }
}

/// An error diagnostic with a message, an optional description and one primary span.
pub open spec fn error_data(msg: Seq<char>, description: Option<Seq<char>>, primary: ByteSpan) -> DiagData {
    (DiagnosticLevel::Error, msg, Some((seq![primary], seq![])), description)
}

/// The diagnostic `d` with one more labeled span.
pub open spec fn with_label(d: DiagData, s: ByteSpan, label: Seq<char>) -> DiagData {
    (d.0, d.1, add_label(d.2, s, label), d.3)
}

/// Something a task wants to communicate to the user, about a position in the template.
#[derive(Debug)]
pub struct Diagnostic {
    /// The severity level associated with this diagnostic.
    level: DiagnosticLevel,
    /// The main message this diagnostic is about.
    msg: String,
    /// The spans this diagnostic is about.
    span: Option<DiagnosticSpan>,
    /// An optional extensive description.
    description: Option<String>,
}

impl Diagnostic {
    /// The mathematical content of this diagnostic.
    pub closed spec fn data(&self) -> DiagData {
        (
            self.level,
            self.msg@,
            match self.span {
                Some(s) => Some(s.data()),
                None => None,
            },
            match self.description {
                Some(d) => Some(d@),
                None => None,
            },
        )
    }

    /// Creates a new diagnostic.
    pub fn new(level: DiagnosticLevel, msg: &str, span: Option<DiagnosticSpan>, description: Option<&str>) -> (r: Self)
        ensures
            r.data() == (level, msg@, match span {
                Some(s) => Some(s.data()),
                None => None::<SpanData>,
            }, match description {
                Some(d) => Some(d@),
                None => None::<Seq<char>>,
            }),
    {
        let description = match description {
            Some(d) => Some(d.to_owned()),
            None => None,
        };
        Diagnostic { level, msg: msg.to_owned(), span, description }
    }

    /// Returns the [`DiagnosticLevel`] associated with this diagnostic.
    pub fn level(&self) -> (r: &DiagnosticLevel)
        ensures
            *r == self.data().0,
    {
        &self.level
    }

    /// Returns the message of this diagnostic.
    pub fn message(&self) -> (r: &str)
        ensures
            r@ == self.data().1,
    {
        self.msg.as_str()
    }

    /// Returns the description of this diagnostic.
    pub fn description(&self) -> (r: Option<&str>)
        ensures
            match r {
                Some(d) => self.data().3 == Some(d@),
                None => self.data().3 is None,
            },
    {
        match &self.description {
            Some(d) => Some(d.as_str()),
            None => None,
        }
    }

    /// Returns the spans of this diagnostic.
    pub fn spans(&self) -> (r: Option<&DiagnosticSpan>)
        ensures
            match r {
                Some(s) => self.data().2 == Some(s.data()),
                None => self.data().2 is None,
            },
    {
        match &self.span {
            Some(s) => Some(s),
            None => None,
        }
    }
}

/// A builder for a [`Diagnostic`].
#[derive(Debug)]
pub struct DiagnosticBuilder {
    /// The severity level associated with the diagnostic.
    level: DiagnosticLevel,
    /// The main message this diagnostic is about.
    msg: String,
    /// The spans this diagnostic is about.
    span: Option<DiagnosticSpan>,
    /// An optional extensive description.
    description: Option<String>,
}

impl DiagnosticBuilder {
    /// The mathematical content of the diagnostic being built.
    pub closed spec fn data(&self) -> DiagData {
        (
            self.level,
            self.msg@,
            match self.span {
                Some(s) => Some(s.data()),
                None => None,
            },
            match self.description {
                Some(d) => Some(d@),
                None => None,
            },
        )
    }

    /// Creates a new diagnostic builder with an empty message.
    pub fn new(level: DiagnosticLevel) -> (r: Self)
        ensures
            r.data() == (level, Seq::<char>::empty(), None::<SpanData>, None::<Seq<char>>),
    {
        DiagnosticBuilder { level, msg: String::new(), span: None, description: None }
    }

    /// Sets the diagnostic level on the builder.
    pub fn level(self, level: DiagnosticLevel) -> (r: Self)
        ensures
            r.data() == (level, self.data().1, self.data().2, self.data().3),
    {
        let mut s = self;
        s.level = level;
        s
    }

    /// Sets the message on the builder.
    pub fn message(self, msg: &str) -> (r: Self)
        ensures
            r.data() == (self.data().0, msg@, self.data().2, self.data().3),
    {
        let mut s = self;
        s.msg = msg.to_owned();
        s
    }

    /// Sets the description on the builder.
    pub fn description(self, description: &str) -> (r: Self)
        ensures
            r.data() == (self.data().0, self.data().1, self.data().2, Some(description@)),
    {
        let mut s = self;
        s.description = Some(description.to_owned());
        s
    }

    /// Adds a primary span to the builder.
    pub fn primary_span(self, span: ByteSpan) -> (r: Self)
        ensures
            r.data() == (self.data().0, self.data().1, add_primary(self.data().2, span), self.data().3),
    {
        let mut s = self;
        let ds = match s.span {
            Some(mut d) => {
                d.primary.push(span);
                d
            },
            None => {
                let mut primary: Vec<ByteSpan> = Vec::new();
                primary.push(span);
                let labels: Vec<(ByteSpan, String)> = Vec::new();
                DiagnosticSpan { primary, labels }
            },
        };
        proof {
            assert(ds.data().1 =~= add_primary(self.data().2, span).unwrap().1);
        }
        s.span = Some(ds);
        s
    }

    /// Adds a labeled span to the builder.
    pub fn label_span(self, span: ByteSpan, label: &str) -> (r: Self)
        ensures
            r.data() == (self.data().0, self.data().1, add_label(self.data().2, span, label@), self.data().3),
    {
        let mut s = self;
        let ghost old_span = s.span;
        let ds = match s.span {
            Some(mut d) => {
                let ghost before = d.labels@;
                d.labels.push((span, label.to_owned()));
                proof {
                    assert(d.labels@.map_values(|l: (ByteSpan, String)| (l.0, l.1@)) =~=
                        before.map_values(|l: (ByteSpan, String)| (l.0, l.1@)).push((span, label@)));
                }
                d
            },
            None => {
                let primary: Vec<ByteSpan> = Vec::new();
                let mut labels: Vec<(ByteSpan, String)> = Vec::new();
                labels.push((span, label.to_owned()));
                proof {
                    assert(labels@.map_values(|l: (ByteSpan, String)| (l.0, l.1@)) =~= seq![(span, label@)]);
                }
                DiagnosticSpan { primary, labels }
            },
        };
        s.span = Some(ds);
        s
    }

    /// Consumes self and creates a diagnostic from it.
    pub fn build(self) -> (r: Diagnostic)
        ensures
            r.data() == self.data(),
    {
        Diagnostic { level: self.level, msg: self.msg, span: self.span, description: self.description }
    }
}

} // verus!
