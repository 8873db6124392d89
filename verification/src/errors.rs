//! Error taxonomy.
//!
//! Every failure mode is a distinct named condition carrying the offending
//! identifier or document location, so a caller can produce an actionable
//! message. No error is ever coerced into a default value.

use vstd::prelude::*;

verus! {

/// Failures while loading or querying the catalog and translation data.
#[derive(Debug, Clone, PartialEq, Eq)]
pub enum DataError {
    /// An input/output failure, by its message.
    StdIo(String),
    /// A sub-document failed to parse: origin, parser diagnostic.
    InvalidXml(String, String),
    /// A required attribute is missing: attribute name, owning context.
    AttributeNotFound(String, String),
    /// An attribute value failed to parse: attribute name, value, context.
    AttributeBadValue(String, String, String),
    /// A required child element is missing: tag, owning context.
    TagNotFound(String, String),
    /// The same key was defined twice: key, owning context.
    DuplicateValue(String, String),
    /// A referenced key has no definition: key, owning context.
    KeyNotFound(String, String),
    /// No sub-document was found for a mandatory section.
    XmlPartNotFound(String),
    /// A subtree held no usable element/comment pairs.
    NoChildren(String),
    /// A mandatory marker never occurs in the document.
    SubstrNotFound(String),
    /// A located section was empty.
    EmptyResultForItem(String),
    /// The fallback language has no translation entries.
    DefaultLangTranslationsNotFound,
    /// A user-supplied localized name matches no known text.
    ReverseTranslationNotFound(String),
    /// A method name occurs in both the priority list and the blacklist.
    PriorityBlackListsIntersection(String),
    /// A listed method name exists nowhere in the catalog.
    UnknownProductionMethod(String),
    /// A demanded ware id is not in the catalog.
    UnknownWare(String),
    /// Every method of the ware is blacklisted and none is prioritized.
    AllMethodsBlacklisted(String),
    /// A facility count was requested for a ware that cannot be produced.
    NoProductionMethods(String),
    /// A request mixed demands that cannot be satisfied together.
    InconsistentRequest(String),
    /// A translation lookup failed irrecoverably.
    TranslationError(String),
    /// An exact throughput left the representable range: the ware id.
    NumericOverflow(String),
    /// Demand propagation descended deeper than the catalog has wares,
    /// which only a dependency cycle can cause: the ware id.
    DependencyDepthExceeded(String),
}

/// Failures around the application configuration surface.
#[derive(Debug, Clone, PartialEq, Eq)]
pub enum ConfigError {
    /// An input/output failure, by its message.
    StdIo(String),
    /// A language string that is not a valid language identifier.
    BadLang(String),
    /// The game directory misses a required file: which one.
    BadGamedir(String),
    /// No default directory is known for this platform.
    UnknownPlatform(String),
    /// The executable's directory could not be determined.
    NoExeDir,
    /// The configuration file is not readable text.
    BadConfigNotStr,
    /// The configuration file is not well-formed.
    BadConfigNotToml,
    /// The configuration file holds unusable values.
    BadConfigData,
}

/// Failures of the user-interface string loader.
#[derive(Debug, Clone, PartialEq, Eq)]
pub enum UiStringsError {
    LoadingError,
}

/// Any failure of the planner: configuration or data.
#[derive(Debug, Clone, PartialEq, Eq)]
pub enum Error {
    ConfigError(ConfigError),
    DataError(DataError),
}

impl Error {
    /// Wraps a data-layer failure.
    pub fn from_data(value: DataError) -> (r: Error)
        ensures
            r == Error::DataError(value),
    {
        Error::DataError(value)
    }

    /// Wraps a configuration failure.
    pub fn from_config(value: ConfigError) -> (r: Error)
        ensures
            r == Error::ConfigError(value),
    {
        Error::ConfigError(value)
    }
}


/// Spec-level image of [`DataError`]: the same variants with every string
/// replaced by its character sequence.
pub enum DataErrorV {
    StdIo(Seq<char>),
    InvalidXml(Seq<char>, Seq<char>),
    AttributeNotFound(Seq<char>, Seq<char>),
    AttributeBadValue(Seq<char>, Seq<char>, Seq<char>),
    TagNotFound(Seq<char>, Seq<char>),
    DuplicateValue(Seq<char>, Seq<char>),
    KeyNotFound(Seq<char>, Seq<char>),
    XmlPartNotFound(Seq<char>),
    NoChildren(Seq<char>),
    SubstrNotFound(Seq<char>),
    EmptyResultForItem(Seq<char>),
    DefaultLangTranslationsNotFound,
    ReverseTranslationNotFound(Seq<char>),
    PriorityBlackListsIntersection(Seq<char>),
    UnknownProductionMethod(Seq<char>),
    UnknownWare(Seq<char>),
    AllMethodsBlacklisted(Seq<char>),
    NoProductionMethods(Seq<char>),
    InconsistentRequest(Seq<char>),
    TranslationError(Seq<char>),
    NumericOverflow(Seq<char>),
    DependencyDepthExceeded(Seq<char>),
}

impl View for DataError {
    type V = DataErrorV;

    open spec fn view(&self) -> DataErrorV {
        match self {
            DataError::StdIo(a) => DataErrorV::StdIo(a@),
            DataError::InvalidXml(a, b) => DataErrorV::InvalidXml(a@, b@),
            DataError::AttributeNotFound(a, b) => DataErrorV::AttributeNotFound(a@, b@),
            DataError::AttributeBadValue(a, b, c) => DataErrorV::AttributeBadValue(a@, b@, c@),
            DataError::TagNotFound(a, b) => DataErrorV::TagNotFound(a@, b@),
            DataError::DuplicateValue(a, b) => DataErrorV::DuplicateValue(a@, b@),
            DataError::KeyNotFound(a, b) => DataErrorV::KeyNotFound(a@, b@),
            DataError::XmlPartNotFound(a) => DataErrorV::XmlPartNotFound(a@),
            DataError::NoChildren(a) => DataErrorV::NoChildren(a@),
            DataError::SubstrNotFound(a) => DataErrorV::SubstrNotFound(a@),
            DataError::EmptyResultForItem(a) => DataErrorV::EmptyResultForItem(a@),
            DataError::DefaultLangTranslationsNotFound => DataErrorV::DefaultLangTranslationsNotFound,
            DataError::ReverseTranslationNotFound(a) => DataErrorV::ReverseTranslationNotFound(a@),
            DataError::PriorityBlackListsIntersection(a) => DataErrorV::PriorityBlackListsIntersection(a@),
            DataError::UnknownProductionMethod(a) => DataErrorV::UnknownProductionMethod(a@),
            DataError::UnknownWare(a) => DataErrorV::UnknownWare(a@),
            DataError::AllMethodsBlacklisted(a) => DataErrorV::AllMethodsBlacklisted(a@),
            DataError::NoProductionMethods(a) => DataErrorV::NoProductionMethods(a@),
            DataError::InconsistentRequest(a) => DataErrorV::InconsistentRequest(a@),
            DataError::TranslationError(a) => DataErrorV::TranslationError(a@),
            DataError::NumericOverflow(a) => DataErrorV::NumericOverflow(a@),
            DataError::DependencyDepthExceeded(a) => DataErrorV::DependencyDepthExceeded(a@),
        }
    }
}

} // verus!
