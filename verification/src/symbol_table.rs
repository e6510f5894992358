//! The symbol table: a stack of frames, one for each open block.
//!
//! A frame maps the names declared in its block to their types and
//! addresses, and counts the bytes that they occupy. Storage is static: a
//! name gets the bytes of the stack behind all that the open frames hold
//! when it is declared, so blocks that are open together never share bytes,
//! and blocks that follow one another use the same bytes again.
//!
//! There are two ways to look a name up. [`SymbolTable::get_ide`] searches
//! the innermost frame only. [`SymbolTable::resolve`] goes on through the
//! enclosing frames, so that a block sees the names of the blocks around it
//! and may hide them with its own; this is the one that the code generator
//! uses for the names in expressions and assignments.

use vstd::prelude::*;
use vstd::string::*;
use crate::ast::statement::{Type, TypeView};
use crate::code_generator::{Address, AddressMode, CodeGenError};

verus! {

/// What is known of a declared identifier.
#[derive(PartialEq, Debug)]
pub struct IdeInfo {
    pub typeinfo: Type,
    pub address: Address,
}

/// The mathematical value of an [`IdeInfo`].
pub struct IdeInfoView {
    pub typeinfo: TypeView,
    pub address: Address,
}

impl View for IdeInfo {
    type V = IdeInfoView;

    open spec fn view(&self) -> IdeInfoView {
        IdeInfoView { typeinfo: self.typeinfo@, address: self.address }
    }
}

struct Entry {
    name: String,
    info: IdeInfo,
}

struct Frame {
    width: u32,
    table: Vec<Entry>,
}

/// The mathematical value of a frame: the bytes that its identifiers
/// occupy, and what is known of each name.
pub struct FrameView {
    pub width: u32,
    pub table: Map<Seq<char>, IdeInfoView>,
}

impl FrameView {
    /// The frame of a block in which nothing has been declared.
    pub open spec fn empty() -> FrameView {
        FrameView { width: 0, table: Map::empty() }
    }
}

/// The table that a list of entries stands for: a later entry of a name
/// replaces an earlier one.
spec fn entries_map(entries: Seq<Entry>) -> Map<Seq<char>, IdeInfoView>
    decreases entries.len(),
{
    if entries.len() == 0 {
        Map::empty()
    } else {
        entries_map(entries.drop_last()).insert(entries.last().name@, entries.last().info@)
    }
}

impl View for Frame {
    type V = FrameView;

    closed spec fn view(&self) -> FrameView {
        FrameView { width: self.width, table: entries_map(self.table@) }
    }
}

/// The bytes that all the frames of `frames` occupy together.
pub open spec fn total_width(frames: Seq<FrameView>) -> nat
    decreases frames.len(),
{
    if frames.len() == 0 {
        0
    } else {
        total_width(frames.drop_last()) + frames.last().width as nat
    }
}

/// What the innermost frame of `frames` knows of `name`. Enclosing frames
/// are not searched: a name declared in an outer block is not visible in an
/// inner one.
pub open spec fn lookup(frames: Seq<FrameView>, name: Seq<char>) -> Option<IdeInfoView> {
    if frames.len() > 0 && frames.last().table.contains_key(name) {
        Some(frames.last().table[name])
    } else {
        None
    }
}

/// What the frames know of `name`, searched from the innermost frame
/// outwards: a name stands for its declaration in the nearest enclosing
/// block, which hides those further out.
pub open spec fn resolve(frames: Seq<FrameView>, name: Seq<char>) -> Option<IdeInfoView>
    decreases frames.len(),
{
    if frames.len() == 0 {
        None
    } else if frames.last().table.contains_key(name) {
        Some(frames.last().table[name])
    } else {
        resolve(frames.drop_last(), name)
    }
}

/// Registers `name` in the innermost frame of `frames`, which grows by the
/// width of the type.
pub open spec fn put(
    frames: Seq<FrameView>,
    name: Seq<char>,
    typeinfo: TypeView,
    address: Address,
) -> Result<Seq<FrameView>, CodeGenError>
    recommends
        frames.len() > 0,
{
    let top = frames.last();
    if top.table.contains_key(name) {
        Err(CodeGenError::Redeclared)
    } else if top.width + typeinfo.width() > u32::MAX {
        Err(CodeGenError::FrameTooLarge)
    } else {
        Ok(
            frames.drop_last().push(
                FrameView {
                    width: (top.width + typeinfo.width()) as u32,
                    table: top.table.insert(name, IdeInfoView { typeinfo, address }),
                },
            ),
        )
    }
}

/// Gives `name` the next free bytes of the stack, behind all that the open
/// frames hold, and registers it in the innermost frame.
pub open spec fn declare(frames: Seq<FrameView>, name: Seq<char>, typeinfo: TypeView) -> Result<
    (Address, Seq<FrameView>),
    CodeGenError,
>
    recommends
        frames.len() > 0,
{
    if frames.last().table.contains_key(name) {
        Err(CodeGenError::Redeclared)
    } else if total_width(frames) + typeinfo.width() > i32::MAX {
        Err(CodeGenError::FrameTooLarge)
    } else {
        let address = Address {
            mode: AddressMode::FramePointer,
            place: total_width(frames) as i32,
        };
        match put(frames, name, typeinfo, address) {
            Ok(after) => Ok((address, after)),
            Err(e) => Err(e),
        }
    }
}

/// A stack of frames, the innermost last.
pub struct SymbolTable {
    frame_stack: Vec<Frame>,
}

impl View for SymbolTable {
    type V = Seq<FrameView>;

    closed spec fn view(&self) -> Seq<FrameView> {
        Seq::new(self.frame_stack.len() as nat, |i: int| self.frame_stack[i]@)
    }
}

/// One more entry is one more insertion into the table.
proof fn lemma_entries_map_push(entries: Seq<Entry>, e: Entry)
    ensures
        entries_map(entries.push(e)) == entries_map(entries).insert(e.name@, e.info@),
{
    assert(entries.push(e).drop_last() == entries);
}

/// The frames at the bottom of a stack occupy no more than the whole stack.
pub proof fn lemma_total_width_prefix(frames: Seq<FrameView>, k: int)
    requires
        0 <= k <= frames.len(),
    ensures
        total_width(frames.take(k)) <= total_width(frames),
    decreases frames.len(),
{
    if k == frames.len() {
        assert(frames.take(k) == frames);
    } else {
        assert(frames.drop_last().take(k) == frames.take(k));
        lemma_total_width_prefix(frames.drop_last(), k);
    }
}

/// The number of bytes that a value of type `t` occupies.
pub fn type_width(t: &Type) -> (w: u32)
    ensures
        w == t@.width(),
{
    if t.dim_width.len() == 0 {
        t.element_width
    } else {
        t.dim_width[0]
    }
}

impl Frame {
    /// The position of the last entry for `name`, or the length of the table
    /// if there is none.
    fn find(&self, name: &String) -> (i: usize)
        ensures
            i <= self.table.len(),
            i < self.table.len() <==> self@.table.contains_key(name@),
            i < self.table.len() ==> self.table[i as int].info@ == self@.table[name@],
    {
        let n = self.table.len();
        let mut i = n;
        assert(self.table@.take(n as int) == self.table@);
        while i > 0
            invariant
                i <= n,
                n == self.table.len(),
                entries_map(self.table@).contains_key(name@) <==> entries_map(
                    self.table@.take(i as int),
                ).contains_key(name@),
                entries_map(self.table@).contains_key(name@) ==> entries_map(self.table@)[name@]
                    == entries_map(self.table@.take(i as int))[name@],
            decreases i,
        {
            assert(self.table@.take(i as int).drop_last() == self.table@.take(i - 1));
            i = i - 1;
            if self.table[i].name == *name {
                return i;
            }
        }
        n
    }
}

impl SymbolTable {
    /// A table with no frame.
    pub fn new() -> (table: SymbolTable)
        ensures
            table@ == Seq::<FrameView>::empty(),
    {
        SymbolTable { frame_stack: Vec::new() }
    }

    /// Opens a frame in which nothing is declared.
    pub fn push_frame(&mut self)
        ensures
            final(self)@ == old(self)@.push(FrameView::empty()),
    {
        let f = Frame { width: 0, table: Vec::new() };
        self.frame_stack.push(f);
    }

    /// Closes the innermost frame.
    pub fn pop_frame(&mut self)
        requires
            old(self)@.len() > 0,
        ensures
            final(self)@ == old(self)@.drop_last(),
    {
        self.frame_stack.pop();
    }

    /// The number of open frames.
    pub fn depth(&self) -> (n: usize)
        ensures
            n == self@.len(),
    {
        self.frame_stack.len()
    }

    /// Registers `name` with its type and address in the innermost frame,
    /// whose width grows by the width of the type. A name that the frame
    /// already holds is refused, and so is one that would make the frame
    /// wider than 32 bits can say; the table is then left as it was.
    pub fn put(&mut self, name: String, typeinfo: Type, address: Address) -> (r: Result<
        (),
        CodeGenError,
    >)
        requires
            old(self)@.len() > 0,
        ensures
            match put(old(self)@, name@, typeinfo@, address) {
                Ok(after) => r is Ok && final(self)@ == after,
                Err(e) => r == Err::<(), CodeGenError>(e) && final(self)@ == old(self)@,
            },
    {
        let n = self.frame_stack.len();
        let w = type_width(&typeinfo);
        let i = self.frame_stack[n - 1].find(&name);
        if i < self.frame_stack[n - 1].table.len() {
            return Err(CodeGenError::Redeclared);
        }
        if w > u32::MAX - self.frame_stack[n - 1].width {
            return Err(CodeGenError::FrameTooLarge);
        }
        let mut frame = self.frame_stack.pop().unwrap();
        let entry = Entry { name, info: IdeInfo { typeinfo, address } };
        proof {
            lemma_entries_map_push(frame.table@, entry);
        }
        frame.table.push(entry);
        frame.width = frame.width + w;
        self.frame_stack.push(frame);
        Ok(())
    }

    /// The bytes that all the open frames occupy together, if an address can
    /// say that many.
    pub fn stack_top(&self) -> (r: Option<u32>)
        ensures
            match r {
                Some(t) => t == total_width(self@) && t <= i32::MAX,
                None => total_width(self@) > i32::MAX,
            },
    {
        let n = self.frame_stack.len();
        let mut total: u32 = 0;
        let mut i: usize = 0;
        while i < n
            invariant
                i <= n,
                n == self.frame_stack.len(),
                total == total_width(self@.take(i as int)),
                total <= i32::MAX,
            decreases n - i,
        {
            let w = self.frame_stack[i].width;
            proof {
                assert(self@.take(i + 1).drop_last() == self@.take(i as int));
                lemma_total_width_prefix(self@, i + 1);
            }
            if w > i32::MAX as u32 - total {
                return None;
            }
            total = total + w;
            i = i + 1;
        }
        proof {
            assert(self@.take(n as int) == self@);
        }
        Some(total)
    }

    /// Gives `name` the next free bytes of the stack, behind all that the
    /// open frames hold, and registers it with that address in the innermost
    /// frame. A name that the frame already holds is refused, and so is one
    /// whose bytes an address cannot reach; the table is then left as it
    /// was.
    pub fn declare(&mut self, name: String, typeinfo: Type) -> (r: Result<Address, CodeGenError>)
        requires
            old(self)@.len() > 0,
        ensures
            match declare(old(self)@, name@, typeinfo@) {
                Ok((address, after)) => r == Ok::<Address, CodeGenError>(address) && final(self)@
                    == after,
                Err(e) => r == Err::<Address, CodeGenError>(e) && final(self)@ == old(self)@,
            },
    {
        let n = self.frame_stack.len();
        let i = self.frame_stack[n - 1].find(&name);
        if i < self.frame_stack[n - 1].table.len() {
            return Err(CodeGenError::Redeclared);
        }
        let w = type_width(&typeinfo);
        match self.stack_top() {
            None => Err(CodeGenError::FrameTooLarge),
            Some(top) => {
                if w > i32::MAX as u32 - top {
                    return Err(CodeGenError::FrameTooLarge);
                }
                let address = Address { mode: AddressMode::FramePointer, place: top as i32 };
                match self.put(name, typeinfo, address) {
                    Ok(()) => Ok(address),
                    Err(e) => Err(e),
                }
            },
        }
    }

    /// What the innermost frame knows of `name`. Enclosing frames are not
    /// searched.
    pub fn get_ide(&self, name: &str) -> (r: Option<&IdeInfo>)
        requires
            self@.len() > 0,
        ensures
            match lookup(self@, name@) {
                Some(info) => r is Some && r->0@ == info,
                None => r is None,
            },
    {
        let n = self.frame_stack.len();
        let key = String::from_str(name);
        let i = self.frame_stack[n - 1].find(&key);
        if i < self.frame_stack[n - 1].table.len() {
            Some(&self.frame_stack[n - 1].table[i].info)
        } else {
            None
        }
    }

    /// What the table knows of `name`, searched from the innermost frame
    /// outwards.
    pub fn resolve(&self, name: &str) -> (r: Option<&IdeInfo>)
        ensures
            match resolve(self@, name@) {
                Some(info) => r is Some && r->0@ == info,
                None => r is None,
            },
    {
        let key = String::from_str(name);
        let mut n = self.frame_stack.len();
        assert(self@.take(n as int) == self@);
        while n > 0
            invariant
                n <= self.frame_stack.len(),
                key@ == name@,
                resolve(self@, name@) == resolve(self@.take(n as int), name@),
            decreases n,
        {
            assert(self@.take(n as int).drop_last() == self@.take(n - 1));
            n = n - 1;
            let i = self.frame_stack[n].find(&key);
            if i < self.frame_stack[n].table.len() {
                return Some(&self.frame_stack[n].table[i].info);
            }
        }
        None
    }

    /// The bytes that the identifiers of the innermost frame occupy.
    pub fn get_frame_width(&self) -> (w: u32)
        requires
            self@.len() > 0,
        ensures
            w == self@.last().width,
    {
        self.frame_stack[self.frame_stack.len() - 1].width
    }
}

} // verus!
