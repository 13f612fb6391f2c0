//! Named classes of benign differences between two resolvers, with their grouping and weight.

use vstd::prelude::*;

verus! {

/// A known, explained class of difference between two resolvers.
#[derive(Clone, Copy, Debug, PartialEq, Eq, Structural, PartialOrd, Ord, Hash)]
pub enum DifferenceKind {
    /// The tested resolver name differs.
    ResolverName,
    /// The DNS id in a header differs.
    DnsId,
    /// Coverage counters of different resolvers cannot be compared.
    IncomparableCounters,
    /// Auxiliary counts, such as the number of records in a section.
    MetaDiff,
    NonINRecursion,
    CookiesUnsupported,
    CookiesUncomparable,
    TodoCacheIgnoredForNow,
    ServFailOnWrongAuthnsAnswerType,
    ServFailOnWrongAuthnsAnswerClass,
    MaxTtlLimit,
    FormErrOnTruncatedQuery,
    ErrorClientNoRrInAnswer,
    ClientQueryWithoutRdBit,
    ExtendedErrorsUnsupported,
    NoEdnsSupport,
    MaradnsNoResponseServfail,
    TrailingRetransmissions,
    ErrorClientQueryIncomparableFuzzeeQueries,
    Bind9NotImpMissingQuerySection,
    MaradnsFakeSoaOnAAAA,
    UnboundProbesUsingARecord,
    PdnsCheckingDisabled,
    MaradnsQueryClassNotIn,
    PdnsEdnsClientBufsize,
    Bind9_11EdnsClientBufsize,
    Bind9_11EdnsServerBufsize,
    UnboundFormErrCopiesAdAndAa,
    RefusedCanBeServFail,
    QnameMinimalization,
    BindHsProhibited,
    MaradnsNoRecursionDesired,
    MaradnsEmbeddedZero,
    BindErrorsHaveHardcodedValues,
    PdnsRecursorsNonQueryNoResponse,
    ResolvedServFailOnNoData,
    Bind9_11ExtraNsRecord,
    Bind9ExtraNsRecord,
}

/// The high-level group of a [`DifferenceKind`].
#[derive(Clone, Copy, Debug, PartialEq, Eq, Structural, PartialOrd, Ord, Hash)]
pub enum DifferenceKindCategory {
    /// Values that are never comparable, such as the DNS id.
    Incomparable,
    /// Optional protocol features that a resolver lacks.
    MissingFeatures,
    /// Values added to the observation afterwards.
    Metadata,
    /// Differences in error handling.
    ErrorHandling,
    /// Consequences of (default) configuration values.
    Configuration,
    /// Differences in the upstream queries.
    UpstreamQueries,
    /// Behaviour specific to one resolver.
    ResolverSpecific,
}

/// The category of each kind.
pub open spec fn category_of(k: DifferenceKind) -> DifferenceKindCategory {
    match k {
        DifferenceKind::ResolverName => DifferenceKindCategory::Metadata,
        DifferenceKind::DnsId => DifferenceKindCategory::Incomparable,
        DifferenceKind::IncomparableCounters => DifferenceKindCategory::Incomparable,
        DifferenceKind::MetaDiff => DifferenceKindCategory::Metadata,
        DifferenceKind::NonINRecursion => DifferenceKindCategory::Configuration,
        DifferenceKind::CookiesUnsupported => DifferenceKindCategory::MissingFeatures,
        DifferenceKind::CookiesUncomparable => DifferenceKindCategory::Incomparable,
        DifferenceKind::TodoCacheIgnoredForNow => DifferenceKindCategory::Metadata,
        DifferenceKind::ServFailOnWrongAuthnsAnswerType => DifferenceKindCategory::ErrorHandling,
        DifferenceKind::ServFailOnWrongAuthnsAnswerClass => DifferenceKindCategory::ErrorHandling,
        DifferenceKind::MaxTtlLimit => DifferenceKindCategory::Configuration,
        DifferenceKind::FormErrOnTruncatedQuery => DifferenceKindCategory::ErrorHandling,
        DifferenceKind::ErrorClientNoRrInAnswer => DifferenceKindCategory::ErrorHandling,
        DifferenceKind::ClientQueryWithoutRdBit => DifferenceKindCategory::Configuration,
        DifferenceKind::ExtendedErrorsUnsupported => DifferenceKindCategory::MissingFeatures,
        DifferenceKind::NoEdnsSupport => DifferenceKindCategory::MissingFeatures,
        DifferenceKind::MaradnsNoResponseServfail => DifferenceKindCategory::ResolverSpecific,
        DifferenceKind::TrailingRetransmissions => DifferenceKindCategory::UpstreamQueries,
        DifferenceKind::ErrorClientQueryIncomparableFuzzeeQueries => DifferenceKindCategory::ErrorHandling,
        DifferenceKind::Bind9NotImpMissingQuerySection => DifferenceKindCategory::ErrorHandling,
        DifferenceKind::MaradnsFakeSoaOnAAAA => DifferenceKindCategory::ResolverSpecific,
        DifferenceKind::UnboundProbesUsingARecord => DifferenceKindCategory::UpstreamQueries,
        DifferenceKind::PdnsCheckingDisabled => DifferenceKindCategory::UpstreamQueries,
        DifferenceKind::MaradnsQueryClassNotIn => DifferenceKindCategory::ResolverSpecific,
        DifferenceKind::PdnsEdnsClientBufsize => DifferenceKindCategory::ResolverSpecific,
        DifferenceKind::Bind9_11EdnsClientBufsize => DifferenceKindCategory::Configuration,
        DifferenceKind::Bind9_11EdnsServerBufsize => DifferenceKindCategory::Configuration,
        DifferenceKind::UnboundFormErrCopiesAdAndAa => DifferenceKindCategory::ErrorHandling,
        DifferenceKind::RefusedCanBeServFail => DifferenceKindCategory::ErrorHandling,
        DifferenceKind::QnameMinimalization => DifferenceKindCategory::UpstreamQueries,
        DifferenceKind::BindHsProhibited => DifferenceKindCategory::Configuration,
        DifferenceKind::MaradnsNoRecursionDesired => DifferenceKindCategory::ResolverSpecific,
        DifferenceKind::MaradnsEmbeddedZero => DifferenceKindCategory::ResolverSpecific,
        DifferenceKind::BindErrorsHaveHardcodedValues => DifferenceKindCategory::ErrorHandling,
        DifferenceKind::PdnsRecursorsNonQueryNoResponse => DifferenceKindCategory::ResolverSpecific,
        DifferenceKind::ResolvedServFailOnNoData => DifferenceKindCategory::ResolverSpecific,
        DifferenceKind::Bind9_11ExtraNsRecord => DifferenceKindCategory::ResolverSpecific,
        DifferenceKind::Bind9ExtraNsRecord => DifferenceKindCategory::ResolverSpecific,
    }
}

/// The interest level of each kind: 1 means no interest, higher values more.
pub open spec fn interest_of(k: DifferenceKind) -> u64 {
    match k {
        DifferenceKind::ResolverName => 1,
        DifferenceKind::DnsId => 1,
        DifferenceKind::IncomparableCounters => 1,
        DifferenceKind::MetaDiff => 1,
        DifferenceKind::NonINRecursion => 1,
        DifferenceKind::CookiesUnsupported => 2,
        DifferenceKind::CookiesUncomparable => 1,
        DifferenceKind::TodoCacheIgnoredForNow => 2,
        DifferenceKind::ServFailOnWrongAuthnsAnswerType => 2,
        DifferenceKind::ServFailOnWrongAuthnsAnswerClass => 2,
        DifferenceKind::MaxTtlLimit => 3,
        DifferenceKind::FormErrOnTruncatedQuery => 2,
        DifferenceKind::ErrorClientNoRrInAnswer => 2,
        DifferenceKind::ClientQueryWithoutRdBit => 3,
        DifferenceKind::ExtendedErrorsUnsupported => 2,
        DifferenceKind::NoEdnsSupport => 1,
        DifferenceKind::MaradnsNoResponseServfail => 1,
        DifferenceKind::TrailingRetransmissions => 1,
        DifferenceKind::ErrorClientQueryIncomparableFuzzeeQueries => 2,
        DifferenceKind::Bind9NotImpMissingQuerySection => 2,
        DifferenceKind::MaradnsFakeSoaOnAAAA => 1,
        DifferenceKind::UnboundProbesUsingARecord => 1,
        DifferenceKind::PdnsCheckingDisabled => 1,
        DifferenceKind::MaradnsQueryClassNotIn => 2,
        DifferenceKind::PdnsEdnsClientBufsize => 1,
        DifferenceKind::Bind9_11EdnsClientBufsize => 1,
        DifferenceKind::Bind9_11EdnsServerBufsize => 1,
        DifferenceKind::UnboundFormErrCopiesAdAndAa => 1,
        DifferenceKind::RefusedCanBeServFail => 1,
        DifferenceKind::QnameMinimalization => 2,
        DifferenceKind::BindHsProhibited => 1,
        DifferenceKind::MaradnsNoRecursionDesired => 1,
        DifferenceKind::MaradnsEmbeddedZero => 1,
        DifferenceKind::BindErrorsHaveHardcodedValues => 1,
        DifferenceKind::PdnsRecursorsNonQueryNoResponse => 1,
        DifferenceKind::ResolvedServFailOnNoData => 3,
        DifferenceKind::Bind9_11ExtraNsRecord => 1,
        DifferenceKind::Bind9ExtraNsRecord => 1,
    }
}

/// The name of each kind.
pub open spec fn kind_name(k: DifferenceKind) -> Seq<char> {
    match k {
        DifferenceKind::ResolverName => "ResolverName"@,
        DifferenceKind::DnsId => "DnsId"@,
        DifferenceKind::IncomparableCounters => "IncomparableCounters"@,
        DifferenceKind::MetaDiff => "MetaDiff"@,
        DifferenceKind::NonINRecursion => "NonINRecursion"@,
        DifferenceKind::CookiesUnsupported => "CookiesUnsupported"@,
        DifferenceKind::CookiesUncomparable => "CookiesUncomparable"@,
        DifferenceKind::TodoCacheIgnoredForNow => "TodoCacheIgnoredForNow"@,
        DifferenceKind::ServFailOnWrongAuthnsAnswerType => "ServFailOnWrongAuthnsAnswerType"@,
        DifferenceKind::ServFailOnWrongAuthnsAnswerClass => "ServFailOnWrongAuthnsAnswerClass"@,
        DifferenceKind::MaxTtlLimit => "MaxTtlLimit"@,
        DifferenceKind::FormErrOnTruncatedQuery => "FormErrOnTruncatedQuery"@,
        DifferenceKind::ErrorClientNoRrInAnswer => "ErrorClientNoRrInAnswer"@,
        DifferenceKind::ClientQueryWithoutRdBit => "ClientQueryWithoutRdBit"@,
        DifferenceKind::ExtendedErrorsUnsupported => "ExtendedErrorsUnsupported"@,
        DifferenceKind::NoEdnsSupport => "NoEdnsSupport"@,
        DifferenceKind::MaradnsNoResponseServfail => "MaradnsNoResponseServfail"@,
        DifferenceKind::TrailingRetransmissions => "TrailingRetransmissions"@,
        DifferenceKind::ErrorClientQueryIncomparableFuzzeeQueries => "ErrorClientQueryIncomparableFuzzeeQueries"@,
        DifferenceKind::Bind9NotImpMissingQuerySection => "Bind9NotImpMissingQuerySection"@,
        DifferenceKind::MaradnsFakeSoaOnAAAA => "MaradnsFakeSoaOnAAAA"@,
        DifferenceKind::UnboundProbesUsingARecord => "UnboundProbesUsingARecord"@,
        DifferenceKind::PdnsCheckingDisabled => "PdnsCheckingDisabled"@,
        DifferenceKind::MaradnsQueryClassNotIn => "MaradnsQueryClassNotIn"@,
        DifferenceKind::PdnsEdnsClientBufsize => "PdnsEdnsClientBufsize"@,
        DifferenceKind::Bind9_11EdnsClientBufsize => "Bind9_11EdnsClientBufsize"@,
        DifferenceKind::Bind9_11EdnsServerBufsize => "Bind9_11EdnsServerBufsize"@,
        DifferenceKind::UnboundFormErrCopiesAdAndAa => "UnboundFormErrCopiesAdAndAa"@,
        DifferenceKind::RefusedCanBeServFail => "RefusedCanBeServFail"@,
        DifferenceKind::QnameMinimalization => "QnameMinimalization"@,
        DifferenceKind::BindHsProhibited => "BindHsProhibited"@,
        DifferenceKind::MaradnsNoRecursionDesired => "MaradnsNoRecursionDesired"@,
        DifferenceKind::MaradnsEmbeddedZero => "MaradnsEmbeddedZero"@,
        DifferenceKind::BindErrorsHaveHardcodedValues => "BindErrorsHaveHardcodedValues"@,
        DifferenceKind::PdnsRecursorsNonQueryNoResponse => "PdnsRecursorsNonQueryNoResponse"@,
        DifferenceKind::ResolvedServFailOnNoData => "ResolvedServFailOnNoData"@,
        DifferenceKind::Bind9_11ExtraNsRecord => "Bind9_11ExtraNsRecord"@,
        DifferenceKind::Bind9ExtraNsRecord => "Bind9ExtraNsRecord"@,
    }
}

impl DifferenceKind {
    pub fn categorize(&self) -> (r: DifferenceKindCategory)
        ensures
            r == category_of(*self),
    {
        match self {
            DifferenceKind::ResolverName => DifferenceKindCategory::Metadata,
            DifferenceKind::DnsId => DifferenceKindCategory::Incomparable,
            DifferenceKind::IncomparableCounters => DifferenceKindCategory::Incomparable,
            DifferenceKind::MetaDiff => DifferenceKindCategory::Metadata,
            DifferenceKind::NonINRecursion => DifferenceKindCategory::Configuration,
            DifferenceKind::CookiesUnsupported => DifferenceKindCategory::MissingFeatures,
            DifferenceKind::CookiesUncomparable => DifferenceKindCategory::Incomparable,
            DifferenceKind::TodoCacheIgnoredForNow => DifferenceKindCategory::Metadata,
            DifferenceKind::ServFailOnWrongAuthnsAnswerType => DifferenceKindCategory::ErrorHandling,
            DifferenceKind::ServFailOnWrongAuthnsAnswerClass => DifferenceKindCategory::ErrorHandling,
            DifferenceKind::MaxTtlLimit => DifferenceKindCategory::Configuration,
            DifferenceKind::FormErrOnTruncatedQuery => DifferenceKindCategory::ErrorHandling,
            DifferenceKind::ErrorClientNoRrInAnswer => DifferenceKindCategory::ErrorHandling,
            DifferenceKind::ClientQueryWithoutRdBit => DifferenceKindCategory::Configuration,
            DifferenceKind::ExtendedErrorsUnsupported => DifferenceKindCategory::MissingFeatures,
            DifferenceKind::NoEdnsSupport => DifferenceKindCategory::MissingFeatures,
            DifferenceKind::MaradnsNoResponseServfail => DifferenceKindCategory::ResolverSpecific,
            DifferenceKind::TrailingRetransmissions => DifferenceKindCategory::UpstreamQueries,
            DifferenceKind::ErrorClientQueryIncomparableFuzzeeQueries => DifferenceKindCategory::ErrorHandling,
            DifferenceKind::Bind9NotImpMissingQuerySection => DifferenceKindCategory::ErrorHandling,
            DifferenceKind::MaradnsFakeSoaOnAAAA => DifferenceKindCategory::ResolverSpecific,
            DifferenceKind::UnboundProbesUsingARecord => DifferenceKindCategory::UpstreamQueries,
            DifferenceKind::PdnsCheckingDisabled => DifferenceKindCategory::UpstreamQueries,
            DifferenceKind::MaradnsQueryClassNotIn => DifferenceKindCategory::ResolverSpecific,
            DifferenceKind::PdnsEdnsClientBufsize => DifferenceKindCategory::ResolverSpecific,
            DifferenceKind::Bind9_11EdnsClientBufsize => DifferenceKindCategory::Configuration,
            DifferenceKind::Bind9_11EdnsServerBufsize => DifferenceKindCategory::Configuration,
            DifferenceKind::UnboundFormErrCopiesAdAndAa => DifferenceKindCategory::ErrorHandling,
            DifferenceKind::RefusedCanBeServFail => DifferenceKindCategory::ErrorHandling,
            DifferenceKind::QnameMinimalization => DifferenceKindCategory::UpstreamQueries,
            DifferenceKind::BindHsProhibited => DifferenceKindCategory::Configuration,
            DifferenceKind::MaradnsNoRecursionDesired => DifferenceKindCategory::ResolverSpecific,
            DifferenceKind::MaradnsEmbeddedZero => DifferenceKindCategory::ResolverSpecific,
            DifferenceKind::BindErrorsHaveHardcodedValues => DifferenceKindCategory::ErrorHandling,
            DifferenceKind::PdnsRecursorsNonQueryNoResponse => DifferenceKindCategory::ResolverSpecific,
            DifferenceKind::ResolvedServFailOnNoData => DifferenceKindCategory::ResolverSpecific,
            DifferenceKind::Bind9_11ExtraNsRecord => DifferenceKindCategory::ResolverSpecific,
            DifferenceKind::Bind9ExtraNsRecord => DifferenceKindCategory::ResolverSpecific,
        }
    }

    /// How interesting a difference of this kind is; never 0.
    pub fn interest_level(&self) -> (r: u64)
        ensures
            r == interest_of(*self),
            r >= 1,
    {
        match self {
            DifferenceKind::ResolverName => 1,
            DifferenceKind::DnsId => 1,
            DifferenceKind::IncomparableCounters => 1,
            DifferenceKind::MetaDiff => 1,
            DifferenceKind::NonINRecursion => 1,
            DifferenceKind::CookiesUnsupported => 2,
            DifferenceKind::CookiesUncomparable => 1,
            DifferenceKind::TodoCacheIgnoredForNow => 2,
            DifferenceKind::ServFailOnWrongAuthnsAnswerType => 2,
            DifferenceKind::ServFailOnWrongAuthnsAnswerClass => 2,
            DifferenceKind::MaxTtlLimit => 3,
            DifferenceKind::FormErrOnTruncatedQuery => 2,
            DifferenceKind::ErrorClientNoRrInAnswer => 2,
            DifferenceKind::ClientQueryWithoutRdBit => 3,
            DifferenceKind::ExtendedErrorsUnsupported => 2,
            DifferenceKind::NoEdnsSupport => 1,
            DifferenceKind::MaradnsNoResponseServfail => 1,
            DifferenceKind::TrailingRetransmissions => 1,
            DifferenceKind::ErrorClientQueryIncomparableFuzzeeQueries => 2,
            DifferenceKind::Bind9NotImpMissingQuerySection => 2,
            DifferenceKind::MaradnsFakeSoaOnAAAA => 1,
            DifferenceKind::UnboundProbesUsingARecord => 1,
            DifferenceKind::PdnsCheckingDisabled => 1,
            DifferenceKind::MaradnsQueryClassNotIn => 2,
            DifferenceKind::PdnsEdnsClientBufsize => 1,
            DifferenceKind::Bind9_11EdnsClientBufsize => 1,
            DifferenceKind::Bind9_11EdnsServerBufsize => 1,
            DifferenceKind::UnboundFormErrCopiesAdAndAa => 1,
            DifferenceKind::RefusedCanBeServFail => 1,
            DifferenceKind::QnameMinimalization => 2,
            DifferenceKind::BindHsProhibited => 1,
            DifferenceKind::MaradnsNoRecursionDesired => 1,
            DifferenceKind::MaradnsEmbeddedZero => 1,
            DifferenceKind::BindErrorsHaveHardcodedValues => 1,
            DifferenceKind::PdnsRecursorsNonQueryNoResponse => 1,
            DifferenceKind::ResolvedServFailOnNoData => 3,
            DifferenceKind::Bind9_11ExtraNsRecord => 1,
            DifferenceKind::Bind9ExtraNsRecord => 1,
        }
    }

    /// The name of the kind.
    pub fn as_str(&self) -> (r: &'static str)
        ensures
            r@ == kind_name(*self),
    {
        match self {
            DifferenceKind::ResolverName => "ResolverName",
            DifferenceKind::DnsId => "DnsId",
            DifferenceKind::IncomparableCounters => "IncomparableCounters",
            DifferenceKind::MetaDiff => "MetaDiff",
            DifferenceKind::NonINRecursion => "NonINRecursion",
            DifferenceKind::CookiesUnsupported => "CookiesUnsupported",
            DifferenceKind::CookiesUncomparable => "CookiesUncomparable",
            DifferenceKind::TodoCacheIgnoredForNow => "TodoCacheIgnoredForNow",
            DifferenceKind::ServFailOnWrongAuthnsAnswerType => "ServFailOnWrongAuthnsAnswerType",
            DifferenceKind::ServFailOnWrongAuthnsAnswerClass => "ServFailOnWrongAuthnsAnswerClass",
            DifferenceKind::MaxTtlLimit => "MaxTtlLimit",
            DifferenceKind::FormErrOnTruncatedQuery => "FormErrOnTruncatedQuery",
            DifferenceKind::ErrorClientNoRrInAnswer => "ErrorClientNoRrInAnswer",
            DifferenceKind::ClientQueryWithoutRdBit => "ClientQueryWithoutRdBit",
            DifferenceKind::ExtendedErrorsUnsupported => "ExtendedErrorsUnsupported",
            DifferenceKind::NoEdnsSupport => "NoEdnsSupport",
            DifferenceKind::MaradnsNoResponseServfail => "MaradnsNoResponseServfail",
            DifferenceKind::TrailingRetransmissions => "TrailingRetransmissions",
            DifferenceKind::ErrorClientQueryIncomparableFuzzeeQueries => "ErrorClientQueryIncomparableFuzzeeQueries",
            DifferenceKind::Bind9NotImpMissingQuerySection => "Bind9NotImpMissingQuerySection",
            DifferenceKind::MaradnsFakeSoaOnAAAA => "MaradnsFakeSoaOnAAAA",
            DifferenceKind::UnboundProbesUsingARecord => "UnboundProbesUsingARecord",
            DifferenceKind::PdnsCheckingDisabled => "PdnsCheckingDisabled",
            DifferenceKind::MaradnsQueryClassNotIn => "MaradnsQueryClassNotIn",
            DifferenceKind::PdnsEdnsClientBufsize => "PdnsEdnsClientBufsize",
            DifferenceKind::Bind9_11EdnsClientBufsize => "Bind9_11EdnsClientBufsize",
            DifferenceKind::Bind9_11EdnsServerBufsize => "Bind9_11EdnsServerBufsize",
            DifferenceKind::UnboundFormErrCopiesAdAndAa => "UnboundFormErrCopiesAdAndAa",
            DifferenceKind::RefusedCanBeServFail => "RefusedCanBeServFail",
            DifferenceKind::QnameMinimalization => "QnameMinimalization",
            DifferenceKind::BindHsProhibited => "BindHsProhibited",
            DifferenceKind::MaradnsNoRecursionDesired => "MaradnsNoRecursionDesired",
            DifferenceKind::MaradnsEmbeddedZero => "MaradnsEmbeddedZero",
            DifferenceKind::BindErrorsHaveHardcodedValues => "BindErrorsHaveHardcodedValues",
            DifferenceKind::PdnsRecursorsNonQueryNoResponse => "PdnsRecursorsNonQueryNoResponse",
            DifferenceKind::ResolvedServFailOnNoData => "ResolvedServFailOnNoData",
            DifferenceKind::Bind9_11ExtraNsRecord => "Bind9_11ExtraNsRecord",
            DifferenceKind::Bind9ExtraNsRecord => "Bind9ExtraNsRecord",
        }
    }
}

} // verus!
