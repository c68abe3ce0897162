//! Shared source positions, CWE identifiers and diagnostics.
use vstd::prelude::*;

verus! {

/// A region of a source file, by line and column.
#[derive(Debug, Clone, Copy, PartialEq, Eq, Hash, Structural)]
pub struct Span {
    pub start_line: usize,
    pub start_col: usize,
    pub end_line: usize,
    pub end_col: usize,
}

/// A span within a named file.
#[derive(Debug, Clone, PartialEq, Eq, Hash)]
pub struct Location {
    pub file_path: String,
    pub span: Span,
}

/// The weakness classes the engine reports on.
#[derive(Debug, Clone, Copy, PartialEq, Eq, Hash, Structural)]
pub enum Cwe {
    Cwe22,
    Cwe78,
    Cwe79,
    Cwe89,
    Cwe113,
    Cwe327,
    Cwe502,
    Cwe614,
    Cwe798,
    Cwe918,
}

/// The number of a CWE class.
pub open spec fn cwe_number(c: Cwe) -> nat {
    match c {
        Cwe::Cwe22 => 22,
        Cwe::Cwe78 => 78,
        Cwe::Cwe79 => 79,
        Cwe::Cwe89 => 89,
        Cwe::Cwe113 => 113,
        Cwe::Cwe327 => 327,
        Cwe::Cwe502 => 502,
        Cwe::Cwe614 => 614,
        Cwe::Cwe798 => 798,
        Cwe::Cwe918 => 918,
    }
}

impl Cwe {
    /// The canonical label `CWE-<number>`.
    pub fn as_str(&self) -> (r: &'static str)
        ensures
            r@ == seq!['C', 'W', 'E', '-'] + crate::text::decimal(cwe_number(*self)),
    {
        proof {
            crate::text::lemma_decimal_small(cwe_number(*self));
        }
        match self {
            Cwe::Cwe22 => {
                proof { reveal_strlit("CWE-22"); }
                "CWE-22"
            },
            Cwe::Cwe78 => {
                proof { reveal_strlit("CWE-78"); }
                "CWE-78"
            },
            Cwe::Cwe79 => {
                proof { reveal_strlit("CWE-79"); }
                "CWE-79"
            },
            Cwe::Cwe89 => {
                proof { reveal_strlit("CWE-89"); }
                "CWE-89"
            },
            Cwe::Cwe113 => {
                proof { reveal_strlit("CWE-113"); }
                "CWE-113"
            },
            Cwe::Cwe327 => {
                proof { reveal_strlit("CWE-327"); }
                "CWE-327"
            },
            Cwe::Cwe502 => {
                proof { reveal_strlit("CWE-502"); }
                "CWE-502"
            },
            Cwe::Cwe614 => {
                proof { reveal_strlit("CWE-614"); }
                "CWE-614"
            },
            Cwe::Cwe798 => {
                proof { reveal_strlit("CWE-798"); }
                "CWE-798"
            },
            Cwe::Cwe918 => {
                proof { reveal_strlit("CWE-918"); }
                "CWE-918"
            },
        }
    }
}

/// Severity of a diagnostic, from least to most serious.
#[derive(Debug, Clone, Copy, PartialEq, Eq, Hash, Structural)]
pub enum Severity {
    Info,
    Low,
    Medium,
    High,
    Critical,
}

/// A located report of one weakness.
#[derive(Debug, Clone, PartialEq, Eq)]
pub struct Diagnostic {
    pub cwe: Cwe,
    pub severity: Severity,
    pub location: Location,
    pub description: String,
    pub recommendation: String,
}

} // verus!
