use vstd::prelude::*;

use crate::addr::IpAddress;
use crate::config_types::InetType;
use crate::parse::{skip_line, skip_line_at};
use crate::span::{col_of, line_col, line_of, line_start, Span};
use crate::text::{dec_digits, dec_string, range_to_string, repeat_char, repeat_string, spec_digit_char};

verus! {

/// The source excerpt an error points at: the span, its place as line
/// and column, the text of the line it starts on, a short message, and,
/// once known, the path of the file the text came from.
#[derive(Debug, Clone, PartialEq, Eq)]
pub struct ErrorContext {
    pub span: Span,
    pub line: usize,
    pub col: usize,
    pub line_text: String,
    pub message: String,
    pub path: Option<String>,
}

/// What a freshly built context holds for the span `[lo, hi)` of `src`
/// and the message `msg`: its true line, column and line text, and no
/// path yet.
pub open spec fn ctx_matches(c: ErrorContext, src: Seq<char>, lo: int, hi: int, msg: Seq<char>) -> bool {
    &&& c.span.lo == lo
    &&& c.span.hi == hi
    &&& c.line == line_of(src, lo)
    &&& c.col == col_of(src, lo)
    &&& c.line_text@ == src.subrange(line_start(src, lo), skip_line(src, lo))
    &&& c.message@ == msg
    &&& c.path is None
}

impl ErrorContext {
    /// Reads the place of `span` off the source text.
    pub fn new(src: &Vec<char>, span: Span, message: String) -> (r: ErrorContext)
        requires
            span.lo <= span.hi <= src.len(),
            src.len() < usize::MAX,
        ensures
            ctx_matches(r, src@, span.lo as int, span.hi as int, message@),
    {
        let (line, col) = line_col(src, span.lo);
        proof {
            crate::span::lemma_line_start_bounds(src@, span.lo as int);
        }
        let start = span.lo + 1 - col;
        let end = skip_line_at(src, span.lo);
        let line_text = range_to_string(src, start, end);
        ErrorContext { span, line, col, line_text, message, path: None }
    }

    /// The same context, pointing at the named file.
    fn with_path(self, path: &str) -> (r: ErrorContext)
        ensures
            r.span == self.span,
            r.line == self.line,
            r.col == self.col,
            r.line_text == self.line_text,
            r.message == self.message,
            r.path matches Some(p) && p@ == path@,
    {
        let mut r = self;
        r.path = Some(path.to_owned());
        r
    }
}

/// Everything that can go wrong reading or serving a configuration.
#[derive(Debug, Clone, PartialEq, Eq)]
pub enum Error {
    /// An operating-system error, described for the user.
    Io { message: String },
    /// The configuration file could not be read.
    Config { message: String },
    /// The text does not follow the configuration grammar.
    Parse { context: ErrorContext },
    /// An option's value did not parse as the option's type.
    OptionValueParse { option: String, context: ErrorContext },
    /// A service block leaves a required option unset.
    MissingRequiredOption { option: String, service: String, context: ErrorContext },
    /// Two service blocks share one name.
    DuplicateService { service: String, context: ErrorContext },
    /// One block sets the same option twice.
    DuplicateOption { option: String, context: ErrorContext },
    /// A listen address of the wrong family for its service.
    InetVersionAddressMismatch { expected_type: InetType, addr: IpAddress, service_name: String },
}

/// How `with_path` rewrites an error: span-carrying variants point at
/// the named file, the rest stand unchanged.
pub open spec fn with_path_rel(e: Error, r: Error, path: Seq<char>) -> bool {
    match e {
        Error::Parse { context } => r matches Error::Parse { context: c } && ctx_path_rel(
            context,
            c,
            path,
        ),
        Error::OptionValueParse { option, context } => r matches Error::OptionValueParse {
            option: o,
            context: c,
        } && o == option && ctx_path_rel(context, c, path),
        Error::MissingRequiredOption { option, service, context } => r matches Error::MissingRequiredOption {
            option: o,
            service: s,
            context: c,
        } && o == option && s == service && ctx_path_rel(context, c, path),
        Error::DuplicateService { service, context } => r matches Error::DuplicateService {
            service: s,
            context: c,
        } && s == service && ctx_path_rel(context, c, path),
        Error::DuplicateOption { option, context } => r matches Error::DuplicateOption {
            option: o,
            context: c,
        } && o == option && ctx_path_rel(context, c, path),
        _ => r == e,
    }
}

pub open spec fn ctx_path_rel(c0: ErrorContext, c1: ErrorContext, path: Seq<char>) -> bool {
    &&& c1.span == c0.span
    &&& c1.line == c0.line
    &&& c1.col == c0.col
    &&& c1.line_text == c0.line_text
    &&& c1.message == c0.message
    &&& c1.path matches Some(p) && p@ == path
}

/// The headline of an error, naming what went wrong.
pub open spec fn spec_message(e: Error) -> Seq<char> {
    match e {
        Error::Io { message } => message@,
        Error::Config { message } => "failed to read config"@,
        Error::Parse { .. } => "failed to parse config"@,
        Error::OptionValueParse { .. } => "failed to parse value"@,
        Error::MissingRequiredOption { option, service, .. } => "missing required option \""@
            + option@ + "\" for service \""@ + service@ + "\""@,
        Error::DuplicateService { service, .. } => "duplicate service \""@ + service@ + "\""@,
        Error::DuplicateOption { option, .. } => "duplicate option \""@ + option@ + "\""@,
        Error::InetVersionAddressMismatch { expected_type, addr, service_name } => "expected "@
            + (match expected_type {
            InetType::Ipv4 => "IPv4"@,
            InetType::Ipv6 => "IPv6"@,
        }) + " address for service \""@ + service_name@ + "\""@,
    }
}

/// How many characters of the line the caret underline covers: the
/// span's width within its line, and at least one.
pub open spec fn spec_underline_len(c: ErrorContext) -> int {
    let width = c.span.hi - c.span.lo;
    let pad: int = if c.col >= 1 {
        c.col - 1
    } else {
        0
    };
    let room: int = if pad <= c.line_text@.len() {
        c.line_text@.len() - pad
    } else {
        0
    };
    let w = if width <= room {
        width
    } else {
        room
    };
    if w < 1 {
        1
    } else {
        w
    }
}

/// The rendered view of a context: where the error stands, the line it
/// stands on, and a caret underline beneath the offending characters.
pub open spec fn spec_render_context(c: ErrorContext) -> Seq<char> {
    "\n --> "@ + (match c.path {
        Some(p) => p@ + ":"@,
        None => Seq::<char>::empty(),
    }) + dec_digits(c.line as int) + ":"@ + dec_digits(c.col as int) + "\n  |\n  | "@
        + c.line_text@ + "\n  | "@ + repeat_char(' ', c.col - 1) + repeat_char(
        '^',
        spec_underline_len(c),
    ) + "\n"@ + (if c.message@.len() > 0 {
        "  = "@ + c.message@ + "\n"@
    } else {
        Seq::<char>::empty()
    })
}

/// The whole diagnostic an error renders as: the headline, and, for an
/// error that points into the text, the annotated source excerpt.
pub open spec fn spec_render(e: Error) -> Seq<char> {
    spec_message(e) + (match e {
        Error::Parse { context } => spec_render_context(context),
        Error::OptionValueParse { context, .. } => spec_render_context(context),
        Error::MissingRequiredOption { context, .. } => spec_render_context(context),
        Error::DuplicateService { context, .. } => spec_render_context(context),
        Error::DuplicateOption { context, .. } => spec_render_context(context),
        _ => Seq::<char>::empty(),
    })
}

impl ErrorContext {
    #[verifier::rlimit(60)]
    fn render_into(&self, out: &mut String)
        ensures
            final(out)@ == old(out)@ + spec_render_context(*self),
    {
        out.append("\n --> ");
        match &self.path {
            Some(p) => {
                out.append(p.as_str());
                out.append(":");
            },
            None => {},
        }
        let line_s = dec_string(self.line);
        out.append(line_s.as_str());
        out.append(":");
        let col_s = dec_string(self.col);
        out.append(col_s.as_str());
        out.append("\n  |\n  | ");
        out.append(self.line_text.as_str());
        out.append("\n  | ");
        let padn = if self.col >= 1 {
            self.col - 1
        } else {
            0
        };
        let pad = repeat_string(' ', padn);
        out.append(pad.as_str());
        let width = if self.span.hi >= self.span.lo {
            self.span.hi - self.span.lo
        } else {
            0
        };
        let line_len = self.line_text.as_str().unicode_len();
        let room = if padn <= line_len {
            line_len - padn
        } else {
            0
        };
        let w = if width <= room {
            width
        } else {
            room
        };
        let w = if w < 1 {
            1
        } else {
            w
        };
        proof {
            assert(w as int == spec_underline_len(*self));
        }
        let carets = repeat_string('^', w);
        out.append(carets.as_str());
        out.append("\n");
        if self.message.as_str().unicode_len() > 0 {
            out.append("  = ");
            out.append(self.message.as_str());
            out.append("\n");
        }
    }
}

impl Error {
    /// Marks the error with the path of the file it came from.
    pub fn with_path(self, path: &str) -> (r: Error)
        ensures
            with_path_rel(self, r, path@),
    {
        match self {
            Error::Parse { context } => Error::Parse { context: context.with_path(path) },
            Error::OptionValueParse { option, context } => Error::OptionValueParse {
                option,
                context: context.with_path(path),
            },
            Error::MissingRequiredOption { option, service, context } => Error::MissingRequiredOption {
                option,
                service,
                context: context.with_path(path),
            },
            Error::DuplicateService { service, context } => Error::DuplicateService {
                service,
                context: context.with_path(path),
            },
            Error::DuplicateOption { option, context } => Error::DuplicateOption {
                option,
                context: context.with_path(path),
            },
            _ => self,
        }
    }

    /// The headline of the error, naming what went wrong.
    pub fn message(&self) -> (s: String)
        ensures
            s@ == spec_message(*self),
    {
        let mut s = String::new();
        match self {
            Error::Io { message } => {
                s.append(message.as_str());
            },
            Error::Config { message } => {
                s.append("failed to read config");
            },
            Error::Parse { .. } => {
                s.append("failed to parse config");
            },
            Error::OptionValueParse { .. } => {
                s.append("failed to parse value");
            },
            Error::MissingRequiredOption { option, service, .. } => {
                s.append("missing required option \"");
                s.append(option.as_str());
                s.append("\" for service \"");
                s.append(service.as_str());
                s.append("\"");
            },
            Error::DuplicateService { service, .. } => {
                s.append("duplicate service \"");
                s.append(service.as_str());
                s.append("\"");
            },
            Error::DuplicateOption { option, .. } => {
                s.append("duplicate option \"");
                s.append(option.as_str());
                s.append("\"");
            },
            Error::InetVersionAddressMismatch { expected_type, addr, service_name } => {
                s.append("expected ");
                s.append(expected_type.as_text());
                s.append(" address for service \"");
                s.append(service_name.as_str());
                s.append("\"");
            },
        }
        s
    }

    /// The whole diagnostic: the headline and, for an error that points
    /// into the text, the annotated source excerpt with file, line,
    /// column and a caret underline.
    pub fn render(&self) -> (s: String)
        ensures
            s@ == spec_render(*self),
    {
        let mut s = self.message();
        match self {
            Error::Parse { context } => context.render_into(&mut s),
            Error::OptionValueParse { context, .. } => context.render_into(&mut s),
            Error::MissingRequiredOption { context, .. } => context.render_into(&mut s),
            Error::DuplicateService { context, .. } => context.render_into(&mut s),
            Error::DuplicateOption { context, .. } => context.render_into(&mut s),
            _ => {},
        }
        s
    }
}

} // verus!
