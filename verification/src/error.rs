use vstd::prelude::*;

verus! {

/// Why a font path registration was refused.
#[derive(PartialEq, Eq, Structural, Clone, Copy, Debug)]
pub enum PathFault {
    NotRelative,
    ParentTraversal,
}

/// The structured errors this bridge can hand back to its caller.
#[derive(Debug)]
pub enum BridgeError {
    /// Compilation was requested before any document body was set.
    NoBody,
    /// A font path was absolute or tried to traverse to a parent directory.
    BadPath(PathFault),
    /// A host value held a string that is not valid UTF-8.
    BadValue,
    /// The typesetter reported diagnostics; the payload is their rendering.
    Typeset(String),
    /// The PDF exporter failed; the payload is the rendered warnings.
    Export(String),
}

impl BridgeError {
    /// The human-legible message for this error.
    pub fn message(&self) -> (r: String)
        ensures
            self is NoBody ==> r@ == "No body for typst compiler"@,
            self matches BridgeError::BadPath(PathFault::NotRelative) ==> r@
                == "Path must be relative."@,
            self matches BridgeError::BadPath(PathFault::ParentTraversal) ==> r@
                == "Path attempts to traverse parent."@,
            self is BadValue ==> r@ == "Host value holds an invalid string."@,
            self matches BridgeError::Typeset(s) ==> r@ == s@,
            self matches BridgeError::Export(s) ==> r@ == s@,
    {
        match self {
            BridgeError::NoBody => String::from_str("No body for typst compiler"),
            BridgeError::BadPath(PathFault::NotRelative) => String::from_str(
                "Path must be relative.",
            ),
            BridgeError::BadPath(PathFault::ParentTraversal) => String::from_str(
                "Path attempts to traverse parent.",
            ),
            BridgeError::BadValue => String::from_str("Host value holds an invalid string."),
            BridgeError::Typeset(s) => s.clone(),
            BridgeError::Export(s) => s.clone(),
        }
    }
}

} // verus!
