use vstd::prelude::*;

verus! {

/// A malformed configuration string: the grammar did not match, a required
/// key is missing, or a field that must not be blank is blank.
#[derive(Clone, Copy, Debug, PartialEq, Eq, Structural)]
pub enum ConfigError {
    /// The `key=value` grammar did not match, or the resource key is absent.
    Malformed,
    /// The delegate class name is empty after trimming.
    EmptyClassName,
    /// A delegate property key or value is empty after trimming.
    EmptyProperty,
}

/// A malformed overlay source document.
#[derive(Clone, Copy, Debug, PartialEq, Eq, Structural)]
pub enum ParseError {
    /// The source text is not a well-formed document at all.
    MalformedDocument,
    /// The root element is not the transition container.
    UnexpectedRoot,
    /// A non-blank text node sits between transitions.
    UnexpectedText,
    /// An element other than a transition sits under the root.
    UnexpectedElement,
    /// A node that is neither element nor text sits under the root.
    UnexpectedNode,
    /// A transition lacks its mandatory start time.
    MissingTimeIn,
    /// A numeric attribute does not parse as a decimal integer.
    InvalidNumber,
    /// A transition has no embedded scene payload.
    MissingScene,
    /// The scene payload is not a plain text node.
    UnexpectedSceneChild,
    /// A transition holds more than the one scene payload.
    MultipleSceneChildren,
    /// The scene payload is blank.
    EmptyScene,
    /// The scene payload does not parse as vector content.
    InvalidScene,
    /// A shape names a path slot outside the path table.
    InvalidPathReference,
}

/// The overlay source could not be read or decompressed.
#[derive(Clone, Copy, Debug, PartialEq, Eq, Structural)]
pub enum ResourceError {
    /// The resource file could not be read.
    Unreadable,
    /// The compressed resource did not decompress.
    Decompress,
}

/// The frame descriptor cannot back a drawing surface.
#[derive(Clone, Copy, Debug, PartialEq, Eq, Structural)]
pub enum GraphicsError {
    /// Width, height, stride and buffer length do not fit together.
    BadDescriptor,
}

/// The embedded-runtime delegate answered with a frame of the wrong size.
#[derive(Clone, Copy, Debug, PartialEq, Eq, Structural)]
pub struct DelegateMismatch {
    pub expected: u64,
    pub actual: u64,
}

} // verus!
