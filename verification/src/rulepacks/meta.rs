//! OWASP categories, the CWE knowledge base, confidence levels and extended rule entries.
use vstd::prelude::*;
use crate::rules::{Rule, Severity};
use crate::text::{decimal, push_decimal};

verus! {

broadcast use vstd::string::group_string_axioms;

/// OWASP Top-10 (2021) categories.
#[derive(Debug, Clone, Copy, PartialEq, Eq, Hash, Structural)]
pub enum OwaspCategory {
    /// A01:2021 – Broken Access Control
    A01BrokenAccessControl,
    /// A02:2021 – Cryptographic Failures
    A02CryptographicFailures,
    /// A03:2021 – Injection
    A03Injection,
    /// A04:2021 – Insecure Design
    A04InsecureDesign,
    /// A05:2021 – Security Misconfiguration
    A05SecurityMisconfiguration,
    /// A06:2021 – Vulnerable and Outdated Components
    A06VulnerableOutdatedComponents,
    /// A07:2021 – Identification and Authentication Failures
    A07IdentificationAuthFailures,
    /// A08:2021 – Software and Data Integrity Failures
    A08SoftwareDataIntegrityFailures,
    /// A09:2021 – Security Logging and Monitoring Failures
    A09SecurityLoggingMonitoringFailures,
    /// A10:2021 – Server-Side Request Forgery
    A10SSRF,
}

/// The display label of a category.
pub open spec fn owasp_label(c: OwaspCategory) -> Seq<char> {
    match c {
        OwaspCategory::A01BrokenAccessControl => "A01:2021 – Broken Access Control"@,
        OwaspCategory::A02CryptographicFailures => "A02:2021 – Cryptographic Failures"@,
        OwaspCategory::A03Injection => "A03:2021 – Injection"@,
        OwaspCategory::A04InsecureDesign => "A04:2021 – Insecure Design"@,
        OwaspCategory::A05SecurityMisconfiguration => "A05:2021 – Security Misconfiguration"@,
        OwaspCategory::A06VulnerableOutdatedComponents => "A06:2021 – Vulnerable and Outdated Components"@,
        OwaspCategory::A07IdentificationAuthFailures => "A07:2021 – Identification and Authentication Failures"@,
        OwaspCategory::A08SoftwareDataIntegrityFailures => "A08:2021 – Software and Data Integrity Failures"@,
        OwaspCategory::A09SecurityLoggingMonitoringFailures => "A09:2021 – Security Logging and Monitoring Failures"@,
        OwaspCategory::A10SSRF => "A10:2021 – Server-Side Request Forgery"@,
    }
}

impl OwaspCategory {
    pub fn as_str(&self) -> (r: &'static str)
        ensures
            r@ == owasp_label(*self),
    {
        match self {
            OwaspCategory::A01BrokenAccessControl => "A01:2021 – Broken Access Control",
            OwaspCategory::A02CryptographicFailures => "A02:2021 – Cryptographic Failures",
            OwaspCategory::A03Injection => "A03:2021 – Injection",
            OwaspCategory::A04InsecureDesign => "A04:2021 – Insecure Design",
            OwaspCategory::A05SecurityMisconfiguration => "A05:2021 – Security Misconfiguration",
            OwaspCategory::A06VulnerableOutdatedComponents => "A06:2021 – Vulnerable and Outdated Components",
            OwaspCategory::A07IdentificationAuthFailures => "A07:2021 – Identification and Authentication Failures",
            OwaspCategory::A08SoftwareDataIntegrityFailures => "A08:2021 – Software and Data Integrity Failures",
            OwaspCategory::A09SecurityLoggingMonitoringFailures => "A09:2021 – Security Logging and Monitoring Failures",
            OwaspCategory::A10SSRF => "A10:2021 – Server-Side Request Forgery",
        }
    }
}

/// Full metadata for a single CWE entry.
#[derive(Debug, Clone)]
pub struct CweMetadata {
    pub cwe_id: u32,
    pub name: String,
    pub description: String,
    pub owasp: Option<OwaspCategory>,
    pub severity_default: Severity,
    pub references: Vec<String>,
}

/// A CWE entry over character sequences.
pub struct CweView {
    pub cwe_id: u32,
    pub name: Seq<char>,
    pub description: Seq<char>,
    pub owasp: Option<OwaspCategory>,
    pub severity_default: Severity,
    pub references: Seq<Seq<char>>,
}

/// The views of a sequence of strings.
pub open spec fn string_views(v: Seq<String>) -> Seq<Seq<char>> {
    v.map_values(|s: String| s@)
}

impl View for CweMetadata {
    type V = CweView;

    open spec fn view(&self) -> CweView {
        CweView {
            cwe_id: self.cwe_id,
            name: self.name@,
            description: self.description@,
            owasp: self.owasp,
            severity_default: self.severity_default,
            references: string_views(self.references@),
        }
    }
}

/// The label `CWE-<n>`.
pub open spec fn cwe_label(n: nat) -> Seq<char> {
    "CWE-"@ + decimal(n)
}

fn cwe_text(n: u32) -> (r: String)
    ensures
        r@ == cwe_label(n as nat),
{
    let mut s = String::from_str("CWE-");
    push_decimal(&mut s, n as u64);
    s
}

impl CweMetadata {
    pub fn cwe_string(&self) -> (r: String)
        ensures
            r@ == cwe_label(self.cwe_id as nat),
    {
        cwe_text(self.cwe_id)
    }
}

fn cwe_entry(
    cwe_id: u32,
    name: &str,
    description: &str,
    owasp: Option<OwaspCategory>,
    severity_default: Severity,
    reference: &str,
) -> (m: CweMetadata)
    ensures
        m@ == (CweView {
            cwe_id,
            name: name@,
            description: description@,
            owasp,
            severity_default,
            references: seq![reference@],
        }),
{
    let references = vec![String::from_str(reference)];
    let m = CweMetadata {
        cwe_id,
        name: String::from_str(name),
        description: String::from_str(description),
        owasp,
        severity_default,
        references,
    };
    assert(m@.references =~= seq![reference@]);
    m
}

/// The knowledge base, in order.
pub open spec fn cwe_table() -> Seq<CweView> {
    seq![
        CweView { cwe_id: 22, name: "Path Traversal"@, description: "Improper limitation of a pathname to a restricted directory."@, owasp: Some(OwaspCategory::A01BrokenAccessControl), severity_default: Severity::High, references: seq!["https://cwe.mitre.org/data/definitions/22.html"@] },
        CweView { cwe_id: 78, name: "OS Command Injection"@, description: "Improper neutralization of special elements used in an OS command."@, owasp: Some(OwaspCategory::A03Injection), severity_default: Severity::Critical, references: seq!["https://cwe.mitre.org/data/definitions/78.html"@] },
        CweView { cwe_id: 79, name: "Cross-Site Scripting"@, description: "Improper neutralization of input during web page generation."@, owasp: Some(OwaspCategory::A03Injection), severity_default: Severity::High, references: seq!["https://cwe.mitre.org/data/definitions/79.html"@] },
        CweView { cwe_id: 89, name: "SQL Injection"@, description: "Improper neutralization of special elements in SQL commands."@, owasp: Some(OwaspCategory::A03Injection), severity_default: Severity::Critical, references: seq!["https://cwe.mitre.org/data/definitions/89.html"@] },
        CweView { cwe_id: 94, name: "Code Injection"@, description: "Improper control of generation of code."@, owasp: Some(OwaspCategory::A03Injection), severity_default: Severity::Critical, references: seq!["https://cwe.mitre.org/data/definitions/94.html"@] },
        CweView { cwe_id: 95, name: "Eval Injection"@, description: "Improper neutralization of directives in dynamically evaluated code."@, owasp: Some(OwaspCategory::A03Injection), severity_default: Severity::Critical, references: seq!["https://cwe.mitre.org/data/definitions/95.html"@] },
        CweView { cwe_id: 200, name: "Exposure of Sensitive Information"@, description: "The product exposes sensitive information to an unauthorized actor."@, owasp: Some(OwaspCategory::A05SecurityMisconfiguration), severity_default: Severity::Medium, references: seq!["https://cwe.mitre.org/data/definitions/200.html"@] },
        CweView { cwe_id: 259, name: "Use of Hard-coded Password"@, description: "The software contains a hard-coded password."@, owasp: Some(OwaspCategory::A07IdentificationAuthFailures), severity_default: Severity::High, references: seq!["https://cwe.mitre.org/data/definitions/259.html"@] },
        CweView { cwe_id: 319, name: "Cleartext Transmission of Sensitive Information"@, description: "The software transmits sensitive information in cleartext."@, owasp: Some(OwaspCategory::A02CryptographicFailures), severity_default: Severity::High, references: seq!["https://cwe.mitre.org/data/definitions/319.html"@] },
        CweView { cwe_id: 327, name: "Use of a Broken or Risky Cryptographic Algorithm"@, description: "The use of a broken or risky cryptographic algorithm is an unnecessary risk."@, owasp: Some(OwaspCategory::A02CryptographicFailures), severity_default: Severity::High, references: seq!["https://cwe.mitre.org/data/definitions/327.html"@] },
        CweView { cwe_id: 352, name: "Cross-Site Request Forgery"@, description: "The web application does not verify that a request was intentionally provided by the user."@, owasp: Some(OwaspCategory::A01BrokenAccessControl), severity_default: Severity::High, references: seq!["https://cwe.mitre.org/data/definitions/352.html"@] },
        CweView { cwe_id: 502, name: "Deserialization of Untrusted Data"@, description: "The application deserializes untrusted data without sufficient verification."@, owasp: Some(OwaspCategory::A08SoftwareDataIntegrityFailures), severity_default: Severity::Critical, references: seq!["https://cwe.mitre.org/data/definitions/502.html"@] },
        CweView { cwe_id: 601, name: "URL Redirection to Untrusted Site (Open Redirect)"@, description: "A web application accepts a user-controlled input that specifies a link."@, owasp: Some(OwaspCategory::A01BrokenAccessControl), severity_default: Severity::Medium, references: seq!["https://cwe.mitre.org/data/definitions/601.html"@] },
        CweView { cwe_id: 611, name: "Improper Restriction of XML External Entity Reference (XXE)"@, description: "The software processes an XML document that can contain XML entities with URIs that resolve to documents outside of the intended sphere of control."@, owasp: Some(OwaspCategory::A05SecurityMisconfiguration), severity_default: Severity::High, references: seq!["https://cwe.mitre.org/data/definitions/611.html"@] },
        CweView { cwe_id: 798, name: "Use of Hard-coded Credentials"@, description: "The software contains hard-coded credentials."@, owasp: Some(OwaspCategory::A07IdentificationAuthFailures), severity_default: Severity::Critical, references: seq!["https://cwe.mitre.org/data/definitions/798.html"@] },
        CweView { cwe_id: 918, name: "Server-Side Request Forgery (SSRF)"@, description: "The web server receives a URL from an upstream component and retrieves it without validating the URL."@, owasp: Some(OwaspCategory::A10SSRF), severity_default: Severity::High, references: seq!["https://cwe.mitre.org/data/definitions/918.html"@] },
    ]
}

/// The views of a sequence of entries.
pub open spec fn cwe_views(v: Seq<CweMetadata>) -> Seq<CweView> {
    v.map_values(|m: CweMetadata| m@)
}

/// The full CWE knowledge base.
pub struct CweKnowledgeBase;

impl CweKnowledgeBase {
    /// Return metadata for every CWE in the knowledge base.
    pub fn all() -> (v: Vec<CweMetadata>)
        ensures
            cwe_views(v@) == cwe_table(),
    {
        let v = vec![
            cwe_entry(22, "Path Traversal", "Improper limitation of a pathname to a restricted directory.", Some(OwaspCategory::A01BrokenAccessControl), Severity::High, "https://cwe.mitre.org/data/definitions/22.html"),
            cwe_entry(78, "OS Command Injection", "Improper neutralization of special elements used in an OS command.", Some(OwaspCategory::A03Injection), Severity::Critical, "https://cwe.mitre.org/data/definitions/78.html"),
            cwe_entry(79, "Cross-Site Scripting", "Improper neutralization of input during web page generation.", Some(OwaspCategory::A03Injection), Severity::High, "https://cwe.mitre.org/data/definitions/79.html"),
            cwe_entry(89, "SQL Injection", "Improper neutralization of special elements in SQL commands.", Some(OwaspCategory::A03Injection), Severity::Critical, "https://cwe.mitre.org/data/definitions/89.html"),
            cwe_entry(94, "Code Injection", "Improper control of generation of code.", Some(OwaspCategory::A03Injection), Severity::Critical, "https://cwe.mitre.org/data/definitions/94.html"),
            cwe_entry(95, "Eval Injection", "Improper neutralization of directives in dynamically evaluated code.", Some(OwaspCategory::A03Injection), Severity::Critical, "https://cwe.mitre.org/data/definitions/95.html"),
            cwe_entry(200, "Exposure of Sensitive Information", "The product exposes sensitive information to an unauthorized actor.", Some(OwaspCategory::A05SecurityMisconfiguration), Severity::Medium, "https://cwe.mitre.org/data/definitions/200.html"),
            cwe_entry(259, "Use of Hard-coded Password", "The software contains a hard-coded password.", Some(OwaspCategory::A07IdentificationAuthFailures), Severity::High, "https://cwe.mitre.org/data/definitions/259.html"),
            cwe_entry(319, "Cleartext Transmission of Sensitive Information", "The software transmits sensitive information in cleartext.", Some(OwaspCategory::A02CryptographicFailures), Severity::High, "https://cwe.mitre.org/data/definitions/319.html"),
            cwe_entry(327, "Use of a Broken or Risky Cryptographic Algorithm", "The use of a broken or risky cryptographic algorithm is an unnecessary risk.", Some(OwaspCategory::A02CryptographicFailures), Severity::High, "https://cwe.mitre.org/data/definitions/327.html"),
            cwe_entry(352, "Cross-Site Request Forgery", "The web application does not verify that a request was intentionally provided by the user.", Some(OwaspCategory::A01BrokenAccessControl), Severity::High, "https://cwe.mitre.org/data/definitions/352.html"),
            cwe_entry(502, "Deserialization of Untrusted Data", "The application deserializes untrusted data without sufficient verification.", Some(OwaspCategory::A08SoftwareDataIntegrityFailures), Severity::Critical, "https://cwe.mitre.org/data/definitions/502.html"),
            cwe_entry(601, "URL Redirection to Untrusted Site (Open Redirect)", "A web application accepts a user-controlled input that specifies a link.", Some(OwaspCategory::A01BrokenAccessControl), Severity::Medium, "https://cwe.mitre.org/data/definitions/601.html"),
            cwe_entry(611, "Improper Restriction of XML External Entity Reference (XXE)", "The software processes an XML document that can contain XML entities with URIs that resolve to documents outside of the intended sphere of control.", Some(OwaspCategory::A05SecurityMisconfiguration), Severity::High, "https://cwe.mitre.org/data/definitions/611.html"),
            cwe_entry(798, "Use of Hard-coded Credentials", "The software contains hard-coded credentials.", Some(OwaspCategory::A07IdentificationAuthFailures), Severity::Critical, "https://cwe.mitre.org/data/definitions/798.html"),
            cwe_entry(918, "Server-Side Request Forgery (SSRF)", "The web server receives a URL from an upstream component and retrieves it without validating the URL.", Some(OwaspCategory::A10SSRF), Severity::High, "https://cwe.mitre.org/data/definitions/918.html"),
        ];
        assert(cwe_views(v@) =~= cwe_table());
        v
    }

    /// Look up a single CWE entry by ID: the first entry with that ID.
    pub fn get(cwe_id: u32) -> (r: Option<CweMetadata>)
        ensures
            r is Some <==> exists|i: int| 0 <= i < cwe_table().len() && (#[trigger] cwe_table()[i]).cwe_id == cwe_id,
            r matches Some(m) ==> exists|i: int|
                0 <= i < cwe_table().len() && (#[trigger] cwe_table()[i]).cwe_id == cwe_id && m@ == cwe_table()[i]
                && forall|j: int| 0 <= j < i ==> cwe_table()[j].cwe_id != cwe_id,
    {
        let mut all = Self::all();
        let ghost t = cwe_views(all@);
        let mut i: usize = 0;
        while i < all.len()
            invariant
                i <= all@.len(),
                t == cwe_views(all@),
                t == cwe_table(),
                forall|j: int| 0 <= j < i ==> t[j].cwe_id != cwe_id,
            decreases all.len() - i,
        {
            assert(t[i as int] == all@[i as int]@);
            if all[i].cwe_id == cwe_id {
                let m = all.remove(i);
                return Some(m);
            }
            i = i + 1;
        }
        None
    }
}

/// Analyst confidence level for findings generated by a rule.
#[derive(Debug, Clone, Copy, PartialEq, Eq, PartialOrd, Ord, Hash, Structural)]
pub enum ConfidenceLevel {
    /// Broad heuristic, requires analyst review.
    Low,
    /// Good heuristic, occasional false positives.
    Medium,
    /// Known-reliable pattern, very few false positives.
    High,
}

/// The label of a confidence level.
pub open spec fn confidence_level_label(c: ConfidenceLevel) -> Seq<char> {
    match c {
        ConfidenceLevel::High => "HIGH"@,
        ConfidenceLevel::Medium => "MEDIUM"@,
        ConfidenceLevel::Low => "LOW"@,
    }
}

impl ConfidenceLevel {
    pub fn as_str(&self) -> (r: &'static str)
        ensures
            r@ == confidence_level_label(*self),
    {
        match self {
            ConfidenceLevel::High => "HIGH",
            ConfidenceLevel::Medium => "MEDIUM",
            ConfidenceLevel::Low => "LOW",
        }
    }
}

/// A rule enriched with reporting metadata.
#[derive(Debug, Clone)]
pub struct ExtendedRuleEntry {
    /// Core rule used by the taint engine.
    pub rule: Rule,
    /// OWASP Top-10 category, if applicable.
    pub owasp: Option<OwaspCategory>,
    /// Analyst confidence level for findings from this rule.
    pub confidence: ConfidenceLevel,
    /// Example CVE identifiers illustrating real-world exploits.
    pub cve_examples: Vec<String>,
    /// Links to advisories.
    pub references: Vec<String>,
    /// Free-form tags for filtering and reporting.
    pub tags: Vec<String>,
}

/// `CWE-<n>` for a rule with a CWE number, `N/A` otherwise.
pub open spec fn optional_cwe_label(cwe: Option<u32>) -> Seq<char> {
    match cwe {
        Some(n) => cwe_label(n as nat),
        None => "N/A"@,
    }
}

/// The label `CWE-<n>` or `N/A`.
pub fn optional_cwe_text(cwe: Option<u32>) -> (r: String)
    ensures
        r@ == optional_cwe_label(cwe),
{
    match cwe {
        Some(n) => cwe_text(n),
        None => String::from_str("N/A"),
    }
}

impl ExtendedRuleEntry {
    pub fn rule_id(&self) -> (r: &str)
        ensures
            r@ == self.rule.id@,
    {
        self.rule.id.as_str()
    }

    pub fn cwe_string(&self) -> (r: String)
        ensures
            r@ == optional_cwe_label(self.rule.cwe),
    {
        optional_cwe_text(self.rule.cwe)
    }
}

} // verus!
