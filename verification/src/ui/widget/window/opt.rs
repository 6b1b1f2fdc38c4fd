//! Window options.

use vstd::prelude::*;
use vstd::std_specs::convert::FromSpecImpl;

verus! {

/// The 'wrap' option when nothing else is asked for.
pub const WRAP: bool = true;

/// The 'line-break' option when nothing else is asked for.
pub const LINE_BREAK: bool = false;

/// The display options of one window.
#[derive(Debug, Clone, Copy, PartialEq, Eq, Structural)]
pub struct WindowLocalOptions {
    wrap: bool,
    line_break: bool,
}

impl Default for WindowLocalOptions {
    fn default() -> (options: Self)
        ensures
            options.spec_wrap() == WRAP,
            options.spec_line_break() == LINE_BREAK,
    {
        WindowLocalOptions { wrap: WRAP, line_break: LINE_BREAK }
    }
}

impl WindowLocalOptions {
    pub closed spec fn spec_wrap(&self) -> bool {
        self.wrap
    }

    pub closed spec fn spec_line_break(&self) -> bool {
        self.line_break
    }

    /// A builder that starts from the default of every option.
    pub fn builder() -> (builder: WindowOptionsBuilder)
        ensures
            builder.spec_wrap() == WRAP,
            builder.spec_line_break() == LINE_BREAK,
    {
        WindowOptionsBuilder { wrap: WRAP, line_break: LINE_BREAK }
    }

    /// The 'wrap' option, also known as 'line-wrap': a line that is wider
    /// than the window goes on in the next row.
    pub fn wrap(&self) -> (value: bool)
        ensures
            value == self.spec_wrap(),
    {
        self.wrap
    }

    pub fn set_wrap(&mut self, value: bool)
        ensures
            final(self).spec_wrap() == value,
            final(self).spec_line_break() == old(self).spec_line_break(),
    {
        self.wrap = value;
    }

    /// The 'line-break' option, also known as 'word-wrap': a wrapped line is
    /// broken between words where it can be.
    pub fn line_break(&self) -> (value: bool)
        ensures
            value == self.spec_line_break(),
    {
        self.line_break
    }

    pub fn set_line_break(&mut self, value: bool)
        ensures
            final(self).spec_line_break() == value,
            final(self).spec_wrap() == old(self).spec_wrap(),
    {
        self.line_break = value;
    }
}

/// The builder of [`WindowLocalOptions`].
#[derive(Debug, Clone, Copy)]
pub struct WindowOptionsBuilder {
    wrap: bool,
    line_break: bool,
}

impl WindowOptionsBuilder {
    pub closed spec fn spec_wrap(&self) -> bool {
        self.wrap
    }

    pub closed spec fn spec_line_break(&self) -> bool {
        self.line_break
    }

    pub fn wrap(&mut self, value: bool) -> (builder: &mut Self)
        ensures
            builder.spec_wrap() == value,
            builder.spec_line_break() == old(self).spec_line_break(),
            *final(self) == *final(builder),
    {
        self.wrap = value;
        self
    }

    pub fn line_break(&mut self, value: bool) -> (builder: &mut Self)
        ensures
            builder.spec_line_break() == value,
            builder.spec_wrap() == old(self).spec_wrap(),
            *final(self) == *final(builder),
    {
        self.line_break = value;
        self
    }

    pub fn build(&self) -> (options: WindowLocalOptions)
        ensures
            options.spec_wrap() == self.spec_wrap(),
            options.spec_line_break() == self.spec_line_break(),
    {
        WindowLocalOptions { wrap: self.wrap, line_break: self.line_break }
    }
}

impl Default for WindowOptionsBuilder {
    fn default() -> (builder: Self)
        ensures
            builder.spec_wrap() == WRAP,
            builder.spec_line_break() == LINE_BREAK,
    {
        WindowOptionsBuilder { wrap: WRAP, line_break: LINE_BREAK }
    }
}

/// The options that all windows share. There is none yet.
#[derive(Debug, Clone, Copy, PartialEq, Eq, Structural)]
pub struct WindowGlobalOptions {}

impl Default for WindowGlobalOptions {
    fn default() -> (options: Self)
        ensures
            options == (WindowGlobalOptions {  }),
    {
        WindowGlobalOptions {  }
    }
}

impl WindowGlobalOptions {
    pub fn builder() -> (builder: WindowGlobalOptionsBuilder)
        ensures
            builder == (WindowGlobalOptionsBuilder {  }),
    {
        WindowGlobalOptionsBuilder {  }
    }
}

/// The builder of [`WindowGlobalOptions`].
#[derive(Debug, Clone, Copy, PartialEq, Eq, Structural)]
pub struct WindowGlobalOptionsBuilder {}

impl Default for WindowGlobalOptionsBuilder {
    fn default() -> (builder: Self)
        ensures
            builder == (WindowGlobalOptionsBuilder {  }),
    {
        WindowGlobalOptionsBuilder {  }
    }
}

impl WindowGlobalOptionsBuilder {
    pub fn build(&self) -> (options: WindowGlobalOptions)
        ensures
            options == (WindowGlobalOptions {  }),
    {
        WindowGlobalOptions {  }
    }
}

/// The options that decide how a viewport lays out its buffer.
#[derive(Debug, Clone, Copy, PartialEq, Eq, Structural)]
pub struct ViewportOptions {
    pub wrap: bool,
    pub line_break: bool,
}

impl ViewportOptions {
    /// The layout options that a window with the given options asks for.
    pub open spec fn of(options: WindowLocalOptions) -> ViewportOptions {
        ViewportOptions { wrap: options.spec_wrap(), line_break: options.spec_line_break() }
    }
}

impl From<&WindowLocalOptions> for ViewportOptions {
    fn from(value: &WindowLocalOptions) -> (options: Self) {
        ViewportOptions { wrap: value.wrap(), line_break: value.line_break() }
    }
}

impl FromSpecImpl<&WindowLocalOptions> for ViewportOptions {
    open spec fn obeys_from_spec() -> bool {
        true
    }

    open spec fn from_spec(value: &WindowLocalOptions) -> Self {
        ViewportOptions::of(*value)
    }
}

} // verus!
