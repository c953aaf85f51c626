use vstd::prelude::*;

verus! {

/// An encode ran out of room: the value needs `requested` bytes and the buffer has only
/// `available`.
///
/// The number requested is always larger than the number available, so it is never zero.
#[derive(Debug, Clone, Copy, PartialEq, Eq, Hash)]
pub struct InsufficientSpace {
    requested: usize,
    available: usize,
}

impl InsufficientSpace {
    #[verifier::type_invariant]
    spec fn short(self) -> bool {
        self.requested > self.available
    }

    /// The number of bytes the value needs.
    pub closed spec fn spec_requested(&self) -> usize {
        self.requested
    }

    /// The number of bytes the buffer had.
    pub closed spec fn spec_available(&self) -> usize {
        self.available
    }

    /// Creates the error for a value of `requested` bytes and a buffer of `available` bytes.
    pub fn new(requested: usize, available: usize) -> (r: Self)
        requires
            requested > available,
        ensures
            r.requested() == requested,
            r.available() == available,
    {
        InsufficientSpace { requested, available }
    }

    /// Returns the number of bytes requested to encode the value; it exceeds
    /// [`Self::available`] and so is at least one.
    #[verifier::when_used_as_spec(spec_requested)]
    pub fn requested(&self) -> (r: usize)
        ensures
            r == self.spec_requested(),
            r > self.spec_available(),
    {
        proof {
            use_type_invariant(self);
        }
        self.requested
    }

    /// Returns the number of bytes available in the buffer.
    #[verifier::when_used_as_spec(spec_available)]
    pub fn available(&self) -> (r: usize)
        ensures
            r == self.spec_available(),
    {
        self.available
    }
}

/// The error of an encode, for callers that need no owned message.
#[derive(Debug, Clone, Copy, PartialEq, Eq, Hash)]
pub enum ConstEncodeError {
    /// The buffer does not have enough capacity to encode the value.
    InsufficientSpace(InsufficientSpace),
    /// A custom error message.
    Other(&'static str),
}

impl ConstEncodeError {
    /// Creates a `ConstEncodeError::InsufficientSpace` for `requested` and `available` bytes.
    pub fn insufficient_space(requested: usize, available: usize) -> (r: Self)
        requires
            requested > available,
        ensures
            r matches ConstEncodeError::InsufficientSpace(s) && s.requested() == requested
                && s.available() == available,
    {
        ConstEncodeError::InsufficientSpace(InsufficientSpace::new(requested, available))
    }

    /// Creates a `ConstEncodeError::Other` with the given message.
    pub fn other(msg: &'static str) -> (r: Self)
        ensures
            r == ConstEncodeError::Other(msg),
    {
        ConstEncodeError::Other(msg)
    }

    /// Restates an insufficient-space error for a larger write: `requested` bytes against
    /// `available`. A custom error is kept as it is.
    pub fn update(self, requested: usize, available: usize) -> (r: Self)
        requires
            requested > available,
        ensures
            self is InsufficientSpace ==> (r matches ConstEncodeError::InsufficientSpace(s)
                && s.requested() == requested && s.available() == available),
            self is Other ==> r == self,
    {
        match self {
            ConstEncodeError::InsufficientSpace(_) => ConstEncodeError::InsufficientSpace(
                InsufficientSpace::new(requested, available),
            ),
            ConstEncodeError::Other(msg) => ConstEncodeError::Other(msg),
        }
    }
}

/// The error of a decode, for callers that need no owned message.
#[derive(Debug, Clone, Copy, PartialEq, Eq, Hash)]
pub enum ConstDecodeError {
    /// The decoded value would overflow the target type.
    Overflow,
    /// The buffer ended before the value did.
    InsufficientData {
        /// The number of bytes available in the buffer.
        available: usize,
    },
    /// A custom error message.
    Other(&'static str),
}

impl ConstDecodeError {
    /// Creates a `ConstDecodeError::Overflow`.
    pub fn overflow() -> (r: Self)
        ensures
            r == ConstDecodeError::Overflow,
    {
        ConstDecodeError::Overflow
    }

    /// Creates a `ConstDecodeError::InsufficientData` for a buffer of `available` bytes.
    pub fn insufficient_data(available: usize) -> (r: Self)
        ensures
            r == (ConstDecodeError::InsufficientData { available }),
    {
        ConstDecodeError::InsufficientData { available }
    }

    /// Creates a `ConstDecodeError::Other` with the given message.
    pub fn other(msg: &'static str) -> (r: Self)
        ensures
            r == ConstDecodeError::Other(msg),
    {
        ConstDecodeError::Other(msg)
    }
}

/// The error of an encode.
#[derive(Debug, Clone, Copy, PartialEq, Eq, Hash)]
pub enum EncodeError {
    /// The buffer does not have enough capacity to encode the value.
    InsufficientSpace(InsufficientSpace),
    /// A custom error message.
    Other(&'static str),
}

impl EncodeError {
    /// Creates an `EncodeError::InsufficientSpace` for `requested` and `available` bytes.
    pub fn insufficient_space(requested: usize, available: usize) -> (r: Self)
        requires
            requested > available,
        ensures
            r.is_insufficient_space(requested as nat, available as nat),
    {
        EncodeError::InsufficientSpace(InsufficientSpace::new(requested, available))
    }

    /// Creates an `EncodeError::InsufficientSpace` for a value of `required` bytes and a
    /// buffer with `remaining` bytes; the same as [`Self::insufficient_space`].
    pub fn underflow(required: usize, remaining: usize) -> (r: Self)
        requires
            required > remaining,
        ensures
            r.is_insufficient_space(required as nat, remaining as nat),
    {
        Self::insufficient_space(required, remaining)
    }

    /// Creates an `EncodeError::Other` with the given message.
    pub fn other(msg: &'static str) -> (r: Self)
        ensures
            r == EncodeError::Other(msg),
    {
        EncodeError::Other(msg)
    }

    /// Creates an `EncodeError::Other` with the given message; the same as [`Self::other`].
    pub fn custom(msg: &'static str) -> (r: Self)
        ensures
            r == EncodeError::Other(msg),
    {
        EncodeError::Other(msg)
    }

    /// Whether this is the insufficient-space error for `requested` bytes against
    /// `available`.
    pub open spec fn is_insufficient_space(self, requested: nat, available: nat) -> bool {
        self matches EncodeError::InsufficientSpace(s) && s.requested() == requested
            && s.available() == available
    }

    /// Restates an insufficient-space error for a larger write: `requested` bytes against
    /// `available`. A custom error is kept as it is.
    pub fn update(self, requested: usize, available: usize) -> (r: Self)
        requires
            requested > available,
        ensures
            self is InsufficientSpace ==> r.is_insufficient_space(
                requested as nat,
                available as nat,
            ),
            self is Other ==> r == self,
    {
        match self {
            EncodeError::InsufficientSpace(_) => EncodeError::InsufficientSpace(
                InsufficientSpace::new(requested, available),
            ),
            EncodeError::Other(msg) => EncodeError::Other(msg),
        }
    }
}

impl From<ConstEncodeError> for EncodeError {
    fn from(err: ConstEncodeError) -> (r: Self) {
        match err {
            ConstEncodeError::InsufficientSpace(s) => EncodeError::InsufficientSpace(s),
            ConstEncodeError::Other(msg) => EncodeError::Other(msg),
        }
    }
}

impl vstd::std_specs::convert::FromSpecImpl<ConstEncodeError> for EncodeError {
    open spec fn obeys_from_spec() -> bool {
        true
    }

    open spec fn from_spec(err: ConstEncodeError) -> Self {
        match err {
            ConstEncodeError::InsufficientSpace(s) => EncodeError::InsufficientSpace(s),
            ConstEncodeError::Other(msg) => EncodeError::Other(msg),
        }
    }
}

/// The error of a decode.
#[derive(Debug, Clone, Copy, PartialEq, Eq, Hash)]
pub enum DecodeError {
    /// The decoded value would overflow the target type.
    Overflow,
    /// The buffer ended before the value did.
    InsufficientData {
        /// The number of bytes available in the buffer.
        available: usize,
    },
    /// A custom error message, for a value that decodes but is not valid.
    Other(&'static str),
}

impl DecodeError {
    /// Creates a `DecodeError::Overflow`.
    pub fn overflow() -> (r: Self)
        ensures
            r == DecodeError::Overflow,
    {
        DecodeError::Overflow
    }

    /// Creates a `DecodeError::InsufficientData` for a buffer of `available` bytes.
    pub fn insufficient_data(available: usize) -> (r: Self)
        ensures
            r == (DecodeError::InsufficientData { available }),
    {
        DecodeError::InsufficientData { available }
    }

    /// Creates a `DecodeError::Other` with the given message.
    pub fn other(msg: &'static str) -> (r: Self)
        ensures
            r == DecodeError::Other(msg),
    {
        DecodeError::Other(msg)
    }

    /// Creates a `DecodeError::Other` with the given message; the same as [`Self::other`].
    pub fn custom(msg: &'static str) -> (r: Self)
        ensures
            r == DecodeError::Other(msg),
    {
        DecodeError::Other(msg)
    }
}

impl From<ConstDecodeError> for DecodeError {
    fn from(err: ConstDecodeError) -> (r: Self) {
        match err {
            ConstDecodeError::Overflow => DecodeError::Overflow,
            ConstDecodeError::InsufficientData { available } => DecodeError::InsufficientData {
                available,
            },
            ConstDecodeError::Other(msg) => DecodeError::Other(msg),
        }
    }
}

impl vstd::std_specs::convert::FromSpecImpl<ConstDecodeError> for DecodeError {
    open spec fn obeys_from_spec() -> bool {
        true
    }

    open spec fn from_spec(err: ConstDecodeError) -> Self {
        match err {
            ConstDecodeError::Overflow => DecodeError::Overflow,
            ConstDecodeError::InsufficientData { available } => DecodeError::InsufficientData {
                available,
            },
            ConstDecodeError::Other(msg) => DecodeError::Other(msg),
        }
    }
}

} // verus!
