use vstd::prelude::*;

verus! {

/// Sort text mapping keys byte-wise before emission.
pub const SORT_KEYS: u32 = 1;

/// Canonicalize non-text mapping keys to text instead of rejecting them.
/// Sorting still happens only when `SORT_KEYS` is also enabled, so plain
/// `NON_STR_KEYS` preserves the mapping's iteration order.
pub const NON_STR_KEYS: u32 = 2;

/// Restrict accepted integer values to the 53-bit range that a double can
/// represent exactly; integers outside it become an error.
pub const STRICT_INTEGER: u32 = 4;

/// Skip the built-in date/time/datetime formatting and route such values to
/// the fallback conversion hook instead.
pub const PASSTHROUGH_DATETIME: u32 = 8;

/// The default bound on nested container depth.
pub const DEFAULT_RECURSION_LIMIT: u32 = 1024;

pub open spec fn opt_enabled(opts: u32, flag: u32) -> bool {
    opts & flag != 0
}

/// Immutable-per-call configuration of one render: the option bit-set, the
/// current recursion depth, and the depth limit. A nested container renders
/// under a copy with the depth raised by one, so sibling branches can never
/// observe each other's depth changes.
#[derive(Clone, Copy)]
pub struct SerializerState {
    pub opts: u32,
    pub depth: u32,
    pub limit: u32,
}

impl SerializerState {
    /// A fresh state for a top-level render under the default depth limit.
    pub fn new(opts: u32) -> (s: SerializerState)
        ensures
            s.opts == opts,
            s.depth == 0,
            s.limit == DEFAULT_RECURSION_LIMIT,
    {
        SerializerState { opts, depth: 0, limit: DEFAULT_RECURSION_LIMIT }
    }

    /// A fresh state with a caller-chosen depth limit.
    pub fn with_limit(opts: u32, limit: u32) -> (s: SerializerState)
        ensures
            s.opts == opts,
            s.depth == 0,
            s.limit == limit,
    {
        SerializerState { opts, depth: 0, limit }
    }

    /// True when entering one more container level would exceed the limit.
    pub fn recursion_limit(&self) -> (r: bool)
        ensures
            r == (self.depth >= self.limit),
    {
        self.depth >= self.limit
    }

    /// The state a nested container renders under: one level deeper,
    /// everything else unchanged.
    pub fn copy_for_recursive_call(&self) -> (s: SerializerState)
        requires
            self.depth < self.limit,
        ensures
            s.opts == self.opts,
            s.depth == self.depth + 1,
            s.limit == self.limit,
    {
        SerializerState { opts: self.opts, depth: self.depth + 1, limit: self.limit }
    }
}

} // verus!
