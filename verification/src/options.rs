//! Options: of a buffer, of a window, and of the editor as a whole.

use vstd::prelude::*;

verus! {

/// How lines end in a file.
#[derive(Debug, Clone, Copy, PartialEq, Eq, Structural)]
pub enum FileFormat {
    /// A line feed.
    Unix,
    /// A carriage return and a line feed.
    Dos,
    /// A carriage return.
    Mac,
}

/// The format that a label names.
pub open spec fn fileformat_label(s: Seq<char>) -> Option<FileFormat> {
    if s == "unix"@ {
        Some(FileFormat::Unix)
    } else if s == "dos"@ {
        Some(FileFormat::Dos)
    } else if s == "mac"@ {
        Some(FileFormat::Mac)
    } else {
        None
    }
}

impl FileFormat {
    pub fn from_label(s: &String) -> (r: Option<FileFormat>)
        ensures
            r == fileformat_label(s@),
    {
        if *s == "unix".to_owned() {
            Some(FileFormat::Unix)
        } else if *s == "dos".to_owned() {
            Some(FileFormat::Dos)
        } else if *s == "mac".to_owned() {
            Some(FileFormat::Mac)
        } else {
            None
        }
    }
}

/// Which pattern language a search uses.
#[derive(Debug, Clone, Copy, PartialEq, Eq, Structural)]
pub enum RegexSyntax {
    Pcre,
    Vim,
}

/// Where folds come from.
#[derive(Debug, Clone, Copy, PartialEq, Eq, Structural)]
pub enum FoldMethod {
    Manual,
    Indent,
    Expr,
    Marker,
}

/// The fold method that a label names.
pub open spec fn foldmethod_label(s: Seq<char>) -> Option<FoldMethod> {
    if s == "manual"@ {
        Some(FoldMethod::Manual)
    } else if s == "indent"@ {
        Some(FoldMethod::Indent)
    } else if s == "expr"@ {
        Some(FoldMethod::Expr)
    } else if s == "marker"@ {
        Some(FoldMethod::Marker)
    } else {
        None
    }
}

impl FoldMethod {
    pub fn from_label(s: &String) -> (r: Option<FoldMethod>)
        ensures
            r == foldmethod_label(s@),
    {
        if *s == "manual".to_owned() {
            Some(FoldMethod::Manual)
        } else if *s == "indent".to_owned() {
            Some(FoldMethod::Indent)
        } else if *s == "expr".to_owned() {
            Some(FoldMethod::Expr)
        } else if *s == "marker".to_owned() {
            Some(FoldMethod::Marker)
        } else {
            None
        }
    }
}

/// The options of a buffer.
#[derive(Debug, Clone, Copy, PartialEq, Eq, Structural)]
pub struct BufferOptions {
    pub tabstop: usize,
    pub shiftwidth: usize,
    pub softtabstop: isize,
    pub expandtab: bool,
    pub autoindent: bool,
    pub smartindent: bool,
    pub autopairs: bool,
    pub bomb: bool,
    pub modifiable: bool,
    pub fileformat: FileFormat,
    pub regexsyntax: RegexSyntax,
    pub foldmethod: FoldMethod,
    pub foldnestmax: usize,
    pub foldminlines: usize,
}

pub open spec fn default_buffer_options() -> BufferOptions {
    BufferOptions {
        tabstop: 8,
        shiftwidth: 8,
        softtabstop: 0,
        expandtab: false,
        autoindent: true,
        smartindent: false,
        autopairs: false,
        bomb: false,
        modifiable: true,
        fileformat: FileFormat::Unix,
        regexsyntax: RegexSyntax::Pcre,
        foldmethod: FoldMethod::Manual,
        foldnestmax: 20,
        foldminlines: 1,
    }
}

impl Default for BufferOptions {
    fn default() -> (r: Self)
        ensures
            r == default_buffer_options(),
    {
        BufferOptions {
            tabstop: 8,
            shiftwidth: 8,
            softtabstop: 0,
            expandtab: false,
            autoindent: true,
            smartindent: false,
            autopairs: false,
            bomb: false,
            modifiable: true,
            fileformat: FileFormat::Unix,
            regexsyntax: RegexSyntax::Pcre,
            foldmethod: FoldMethod::Manual,
            foldnestmax: 20,
            foldminlines: 1,
        }
    }
}

/// The width of a tab, at least one cell.
pub open spec fn tab_width(o: BufferOptions) -> usize {
    if o.tabstop >= 1 {
        o.tabstop
    } else {
        1
    }
}

/// The width that the tab key advances by: `softtabstop`, else `shiftwidth`, else
/// the width of a tab.
pub open spec fn tab_unit(o: BufferOptions) -> usize {
    if o.softtabstop > 0 {
        o.softtabstop as usize
    } else if o.shiftwidth > 0 {
        o.shiftwidth
    } else {
        tab_width(o)
    }
}

impl BufferOptions {
    pub fn effective_tabstop(&self) -> (n: usize)
        ensures
            n == tab_width(*self),
            n >= 1,
    {
        if self.tabstop >= 1 {
            self.tabstop
        } else {
            1
        }
    }

    pub fn effective_softtabstop(&self) -> (n: usize)
        ensures
            n == tab_unit(*self),
            n >= 1,
    {
        if self.softtabstop > 0 {
            self.softtabstop as usize
        } else if self.shiftwidth > 0 {
            self.shiftwidth
        } else {
            self.effective_tabstop()
        }
    }
}

/// The options of a window.
#[derive(Debug, Clone, Copy, PartialEq, Eq, Structural)]
pub struct WindowOptions {
    pub number: bool,
    pub relativenumber: bool,
    pub sidescroll: usize,
    pub sidescrolloff: usize,
    pub scrolloff: usize,
    /// Long lines are laid out over several rows, and the view does not move sideways.
    pub wrap: bool,
}

pub open spec fn default_window_options() -> WindowOptions {
    WindowOptions {
        number: false,
        relativenumber: false,
        sidescroll: 1,
        sidescrolloff: 0,
        scrolloff: 0,
        wrap: false,
    }
}

impl Default for WindowOptions {
    fn default() -> (r: Self)
        ensures
            r == default_window_options(),
    {
        WindowOptions {
            number: false,
            relativenumber: false,
            sidescroll: 1,
            sidescrolloff: 0,
            scrolloff: 0,
            wrap: false,
        }
    }
}

/// The options of the editor.
#[derive(Debug, Clone, Copy, PartialEq, Eq, Structural)]
pub struct Options {
    pub ignorecase: bool,
    pub smartcase: bool,
    pub wrapscan: bool,
    pub hlsearch: bool,
    pub incsearch: bool,
    pub autoread: bool,
    /// How many lines a prompt's history keeps.
    pub history: usize,
    /// Pictures are shown, and not read as text.
    pub imagepreview: bool,
}

pub open spec fn default_options() -> Options {
    Options {
        ignorecase: false,
        smartcase: false,
        wrapscan: true,
        hlsearch: true,
        incsearch: true,
        autoread: true,
        history: 10_000,
        imagepreview: false,
    }
}

impl Default for Options {
    fn default() -> (r: Self)
        ensures
            r == default_options(),
    {
        Options {
            ignorecase: false,
            smartcase: false,
            wrapscan: true,
            hlsearch: true,
            incsearch: true,
            autoread: true,
            history: 10_000,
            imagepreview: false,
        }
    }
}

/// What `:set` does to a boolean option.
#[derive(Debug, Clone, Copy, PartialEq, Eq, Structural)]
pub enum SetOp {
    On,
    Off,
    Toggle,
    Query,
}

/// What `:set` does to a number option.
#[derive(Debug, Clone, Copy, PartialEq, Eq, Structural)]
pub enum NumOp {
    Assign(i64),
    Query,
}

} // verus!
