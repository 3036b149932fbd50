//! The registers: texts that were yanked or deleted, each under its name.

use vstd::prelude::*;

use crate::command::{clipboard_register, is_clipboard_register};
use crate::idmap::IdMap;
use crate::strings::{digit, is_digit, is_letter, joined_str, letter};

verus! {

/// A text that was yanked or deleted, and whether it was whole lines.
pub struct Register {
    pub text: String,
    pub linewise: bool,
}

/// What a [`Register`] holds.
pub ghost struct Reg {
    pub text: Seq<char>,
    pub linewise: bool,
}

impl View for Register {
    type V = Reg;

    open spec fn view(&self) -> Reg {
        Reg { text: self.text@, linewise: self.linewise }
    }
}

impl Register {
    /// The same text once more.
    pub fn copy(&self) -> (r: Register)
        ensures
            r@ == self@,
    {
        Register { text: self.text.clone(), linewise: self.linewise }
    }
}

pub open spec fn reg_of(r: Option<Register>) -> Option<Reg> {
    match r {
        Some(r) => Some(r@),
        None => None,
    }
}

/// All registers that can be written.
pub struct Registers {
    cells: IdMap<Register>,
    /// What the clipboard of the host holds; none where the host has no clipboard.
    clipboard: Option<Register>,
    /// What is to be put in the clipboard of the host.
    copied: Option<Register>,
}

/// What [`Registers`] hold.
pub ghost struct Regs {
    pub cells: Map<u64, Reg>,
    pub clipboard: Option<Reg>,
    pub copied: Option<Reg>,
}

impl View for Registers {
    type V = Regs;

    closed spec fn view(&self) -> Regs {
        Regs {
            cells: self.cells@.map_values(|r: Register| r@),
            clipboard: reg_of(self.clipboard),
            copied: reg_of(self.copied),
        }
    }
}

/// The name of the register that a command uses that names none.
pub const UNNAMED: char = '"';

/// Whether a name is that of a register that keeps a text: a letter, a digit, `-`, or the
/// unnamed one.
pub open spec fn keeps_text(name: char) -> bool {
    letter(name) || digit(name) || name == '-' || name == UNNAMED
}

/// Whether a name adds to the register of its small letter.
pub open spec fn adds(name: char) -> bool {
    'A' <= name && name <= 'Z'
}

/// The place of a register. A capital letter has that of its small one.
pub open spec fn cell_of(name: char) -> u64 {
    if adds(name) {
        (name as u64 + 32) as u64
    } else {
        name as u64
    }
}

/// Nothing is in any register, and there is no clipboard.
pub open spec fn no_regs() -> Regs {
    Regs { cells: Map::empty(), clipboard: None, copied: None }
}

/// What a register holds, the unnamed one where no name is given; nothing where nothing was
/// put in it.
pub open spec fn held_in(r: Regs, name: Option<char>) -> Option<Reg> {
    let n = match name {
        Some(c) => c,
        None => UNNAMED,
    };
    if clipboard_register(name) {
        r.clipboard
    } else if keeps_text(n) && r.cells.contains_key(cell_of(n)) {
        Some(r.cells[cell_of(n)])
    } else {
        None
    }
}

/// A text as whole lines.
pub open spec fn as_lines(r: Reg) -> Seq<char> {
    if r.linewise {
        r.text
    } else {
        r.text.push('\n')
    }
}

/// A text with another after it. If either is whole lines, the other becomes that too.
pub open spec fn added_to(r: Option<Reg>, v: Reg) -> Reg {
    match r {
        None => v,
        Some(a) => if a.linewise || v.linewise {
            Reg { text: as_lines(a) + as_lines(v), linewise: true }
        } else {
            Reg { text: a.text + v.text, linewise: false }
        },
    }
}

/// A text put in a register, the unnamed one where no name is given. What goes to a named
/// register is also in the unnamed one; what goes to the clipboard is there alone. A register
/// that keeps no text takes none.
pub open spec fn put_in(r: Regs, name: Option<char>, v: Reg) -> Regs {
    let n = match name {
        Some(c) => c,
        None => UNNAMED,
    };
    if clipboard_register(name) {
        if r.clipboard is Some {
            Regs { clipboard: Some(v), copied: Some(v), ..r }
        } else {
            r
        }
    } else if keeps_text(n) {
        let whole = if adds(n) {
            added_to(held_in(r, name), v)
        } else {
            v
        };
        Regs { cells: r.cells.insert(cell_of(n), whole).insert(cell_of(UNNAMED), whole), ..r }
    } else {
        r
    }
}

fn is_kept(name: char) -> (b: bool)
    ensures
        b == keeps_text(name),
{
    is_letter(name) || is_digit(name) || name == '-' || name == UNNAMED
}

fn cell(name: char) -> (k: u64)
    ensures
        k == cell_of(name),
{
    if 'A' <= name && name <= 'Z' {
        name as u64 + 32
    } else {
        name as u64
    }
}

fn lines_of(r: &Register) -> (s: String)
    ensures
        s@ == as_lines(r@),
{
    let mut s = r.text.clone();
    if !r.linewise {
        s.push('\n');
    }
    s
}

impl Registers {
    pub closed spec fn wf(&self) -> bool {
        self.cells.wf()
    }

    /// Nothing is in any register, and there is no clipboard.
    pub fn new() -> (r: Registers)
        ensures
            r.wf(),
            r@ == no_regs(),
    {
        let r = Registers { cells: IdMap::new(), clipboard: None, copied: None };
        assert(r@.cells =~= Map::<u64, Reg>::empty());
        r
    }

    /// What a register holds, the unnamed one where no name is given.
    pub fn get(&self, name: Option<char>) -> (r: Option<&Register>)
        requires
            self.wf(),
        ensures
            match held_in(self@, name) {
                Some(v) => r is Some && r->0@ == v,
                None => r is None,
            },
    {
        let n = match name {
            Some(c) => c,
            None => UNNAMED,
        };
        if is_clipboard_register(name) {
            match &self.clipboard {
                Some(r) => Some(r),
                None => None,
            }
        } else if is_kept(n) {
            self.cells.get(cell(n))
        } else {
            None
        }
    }

    fn whole(&self, name: Option<char>, v: Register) -> (r: Register)
        requires
            self.wf(),
        ensures
            r@ == added_to(held_in(self@, name), v@),
    {
        match self.get(name) {
            None => v,
            Some(a) => if a.linewise || v.linewise {
                Register {
                    text: joined_str(lines_of(a).as_str(), lines_of(&v).as_str()),
                    linewise: true,
                }
            } else {
                Register { text: joined_str(a.text.as_str(), v.text.as_str()), linewise: false }
            },
        }
    }

    /// Put a text in a register, the unnamed one where no name is given.
    pub fn put(&mut self, name: Option<char>, v: Register)
        requires
            old(self).wf(),
        ensures
            final(self).wf(),
            final(self)@ == put_in(old(self)@, name, v@),
    {
        let n = match name {
            Some(c) => c,
            None => UNNAMED,
        };
        if is_clipboard_register(name) {
            if self.clipboard.is_some() {
                self.copied = Some(v.copy());
                self.clipboard = Some(v);
                assert(self@.cells =~= old(self)@.cells);
            }
        } else if is_kept(n) {
            let whole = if 'A' <= n && n <= 'Z' {
                self.whole(name, v)
            } else {
                v
            };
            let ghost m = whole@;
            let again = whole.copy();
            self.cells.insert(cell(n), whole);
            self.cells.insert(cell(UNNAMED), again);
            assert(self@.cells =~= old(self)@.cells.insert(cell_of(n), m).insert(
                cell_of(UNNAMED),
                m,
            ));
        }
    }

    /// Whether the host has a clipboard.
    pub fn has_clipboard(&self) -> (b: bool)
        ensures
            b == (self@.clipboard is Some),
    {
        self.clipboard.is_some()
    }

    /// Note what the clipboard of the host holds; none where there is no clipboard.
    pub fn set_clipboard(&mut self, v: Option<Register>)
        requires
            old(self).wf(),
        ensures
            final(self).wf(),
            final(self)@ == (Regs { clipboard: reg_of(v), ..old(self)@ }),
    {
        self.clipboard = v;
    }

    /// Take what is to be put in the clipboard of the host.
    pub fn take_copied(&mut self) -> (r: Option<Register>)
        requires
            old(self).wf(),
        ensures
            final(self).wf(),
            reg_of(r) == old(self)@.copied,
            final(self)@ == (Regs { copied: None, ..old(self)@ }),
    {
        let r = match &self.copied {
            Some(c) => Some(c.copy()),
            None => None,
        };
        self.copied = None;
        r
    }
}

/// What was put in a register that keeps a text is read back from it, under its name.
pub proof fn register_reads_back(r: Regs, name: char, v: Reg)
    requires
        keeps_text(name),
        !adds(name),
    ensures
        held_in(put_in(r, Some(name), v), Some(name)) == Some(v),
        held_in(put_in(r, Some(name), v), None) == Some(v),
{
}

/// What is put in one register leaves what others hold, but for the unnamed one.
pub proof fn other_registers_stay(r: Regs, name: Option<char>, v: Reg, other: char)
    requires
        other != UNNAMED,
        !clipboard_register(Some(other)) || !clipboard_register(name),
        name is None || cell_of(name->0) != cell_of(other),
    ensures
        held_in(put_in(r, name, v), Some(other)) == held_in(r, Some(other)),
{
}

/// What goes to the clipboard is read back from it, and leaves the registers as they are;
/// without a clipboard nothing changes.
pub proof fn clipboard_is_apart(r: Regs, name: char, v: Reg)
    requires
        clipboard_register(Some(name)),
    ensures
        put_in(r, Some(name), v).cells == r.cells,
        r.clipboard is Some ==> held_in(put_in(r, Some(name), v), Some(name)) == Some(v),
        r.clipboard is None ==> put_in(r, Some(name), v) == r,
{
}

/// The black hole takes a text and keeps nothing.
pub proof fn black_hole_keeps_nothing(r: Regs, v: Reg)
    ensures
        put_in(r, Some('_'), v) == r,
        held_in(r, Some('_')) is None,
{
}

} // verus!
