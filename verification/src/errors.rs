use vstd::prelude::*;

verus! {

/// The failures the library reports. Each variant carries the detail a
/// caller needs to rebuild the human-readable message.
#[derive(Debug)]
pub enum Error {
    /// A `{KEY}` placeholder whose key breaks the identifier grammar.
    InvalidPlaceholderKey(String),
    /// A placeholder key found neither in the environment map nor anywhere else.
    MissingPlaceholderValue(String),
    /// A `{}` with nothing between the braces.
    EmptyPlaceholder,
    /// A requested profile name that the configuration does not declare.
    UnknownProfile(String),
    /// A configuration with no profiles at all.
    NoProfilesDefined,
    /// Request text with no substantive line.
    MissingRequestLine,
    /// A request line that yields no URL.
    MissingRequestUrl,
    /// A header line without a colon; carries the offending line.
    InvalidHeaderLine(String),
    /// An `@`-directive without its argument; carries the directive name.
    MissingDirectiveArgument(String),
    /// A file that could not be read or decoded; carries its path.
    FileReadFailure(String),
    /// A curl command that neither import strategy accepted; carries both causes.
    CurlParseFailure(String),
    /// A directive that the current context refuses; carries the line.
    UnsupportedDirective(String),
    /// An export template name this library does not know.
    UnknownExportTemplate(String),
}

/// Ghost image of an [`Error`], with every payload as a character sequence.
pub enum ErrorView {
    InvalidPlaceholderKey(Seq<char>),
    MissingPlaceholderValue(Seq<char>),
    EmptyPlaceholder,
    UnknownProfile(Seq<char>),
    NoProfilesDefined,
    MissingRequestLine,
    MissingRequestUrl,
    InvalidHeaderLine(Seq<char>),
    MissingDirectiveArgument(Seq<char>),
    FileReadFailure(Seq<char>),
    CurlParseFailure(Seq<char>),
    UnsupportedDirective(Seq<char>),
    UnknownExportTemplate(Seq<char>),
}

impl View for Error {
    type V = ErrorView;

    open spec fn view(&self) -> ErrorView {
        match self {
            Error::InvalidPlaceholderKey(k) => ErrorView::InvalidPlaceholderKey(k@),
            Error::MissingPlaceholderValue(k) => ErrorView::MissingPlaceholderValue(k@),
            Error::EmptyPlaceholder => ErrorView::EmptyPlaceholder,
            Error::UnknownProfile(n) => ErrorView::UnknownProfile(n@),
            Error::NoProfilesDefined => ErrorView::NoProfilesDefined,
            Error::MissingRequestLine => ErrorView::MissingRequestLine,
            Error::MissingRequestUrl => ErrorView::MissingRequestUrl,
            Error::InvalidHeaderLine(l) => ErrorView::InvalidHeaderLine(l@),
            Error::MissingDirectiveArgument(d) => ErrorView::MissingDirectiveArgument(d@),
            Error::FileReadFailure(p) => ErrorView::FileReadFailure(p@),
            Error::CurlParseFailure(m) => ErrorView::CurlParseFailure(m@),
            Error::UnsupportedDirective(l) => ErrorView::UnsupportedDirective(l@),
            Error::UnknownExportTemplate(n) => ErrorView::UnknownExportTemplate(n@),
        }
    }
}

/// The text of an error, as the message method renders it.
pub open spec fn spec_message(e: ErrorView) -> Seq<char> {
    match e {
        ErrorView::InvalidPlaceholderKey(k) => "Invalid template variable: "@ + k,
        ErrorView::MissingPlaceholderValue(k) => "Missing template variable: "@ + k,
        ErrorView::EmptyPlaceholder => "Empty template placeholder"@,
        ErrorView::UnknownProfile(n) => "Unknown profile: "@ + n,
        ErrorView::NoProfilesDefined => "No profiles defined in configuration"@,
        ErrorView::MissingRequestLine => "Missing request line"@,
        ErrorView::MissingRequestUrl => "Missing request URL"@,
        ErrorView::InvalidHeaderLine(l) => "Invalid header line: "@ + l,
        ErrorView::MissingDirectiveArgument(d) => d + " directive requires a file path"@,
        ErrorView::FileReadFailure(p) => "reading file "@ + p,
        ErrorView::CurlParseFailure(m) => m,
        ErrorView::UnsupportedDirective(l) => "Directive '"@ + l + "' is not supported here"@,
        ErrorView::UnknownExportTemplate(n) => "Unknown export template: "@ + n,
    }
}

impl Error {
    /// One-line human-readable description of the failure.
    pub fn message(&self) -> (r: String)
        ensures
            r@ == spec_message(self@),
    {
        match self {
            Error::InvalidPlaceholderKey(k) => {
                String::from_str("Invalid template variable: ").concat(k.as_str())
            },
            Error::MissingPlaceholderValue(k) => {
                String::from_str("Missing template variable: ").concat(k.as_str())
            },
            Error::EmptyPlaceholder => String::from_str("Empty template placeholder"),
            Error::UnknownProfile(n) => String::from_str("Unknown profile: ").concat(n.as_str()),
            Error::NoProfilesDefined => String::from_str("No profiles defined in configuration"),
            Error::MissingRequestLine => String::from_str("Missing request line"),
            Error::MissingRequestUrl => String::from_str("Missing request URL"),
            Error::InvalidHeaderLine(l) => {
                String::from_str("Invalid header line: ").concat(l.as_str())
            },
            Error::MissingDirectiveArgument(d) => {
                let mut s = d.clone();
                s.append(" directive requires a file path");
                s
            },
            Error::FileReadFailure(p) => String::from_str("reading file ").concat(p.as_str()),
            Error::CurlParseFailure(m) => m.clone(),
            Error::UnsupportedDirective(l) => {
                let mut s = String::from_str("Directive '");
                s.append(l.as_str());
                s.append("' is not supported here");
                s
            },
            Error::UnknownExportTemplate(n) => {
                String::from_str("Unknown export template: ").concat(n.as_str())
            },
        }
    }
}

} // verus!
