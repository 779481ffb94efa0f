//! The code generator: from the syntax tree to AArch64 assembly text.
//!
//! The generator keeps a `Handler`: the text of every labelled block
//! ("scope") of the output, the block being written, and an arena of symbol
//! tables, one per stack frame, with the offset of every variable from the
//! frame base. The meaning of every generating function is given by a spec
//! function with the prefix `gen_`, from the tree and the handler's view to
//! the handler's view after it, or `None` where the function would panic
//! (an undefined name, a node without the children it needs, an arithmetic
//! overflow); the executable functions rule that out in their `requires`.
use vstd::prelude::*;

use crate::compiler::lexer::RhTypes;
use crate::compiler::parser::{
    lemma_trees_index, trees, AssignmentOpType, NodeType, ScopeType, TokenNode, Tree,
};
use crate::compiler::text::{
    dec, is_ws, law_trim_clean, lines, lines_of, push_decimal, split_newlines, split_nl, strs_view, trim, trim_string,
};

verus! {

/// A function's parameters (name and size) and the label of its code.
pub struct FunctionSig {
    args: Vec<(String, i32)>,
    label: String,
}

/// The mathematical form of a `FunctionSig`.
pub struct SigView {
    pub args: Seq<(Seq<char>, i32)>,
    pub label: Seq<char>,
}

pub open spec fn args_view(a: Seq<(String, i32)>) -> Seq<(Seq<char>, i32)> {
    a.map_values(|p: (String, i32)| (p.0@, p.1))
}

impl View for FunctionSig {
    type V = SigView;

    closed spec fn view(&self) -> SigView {
        SigView { args: args_view(self.args@), label: self.label@ }
    }
}

fn clone_args(args: &Vec<(String, i32)>) -> (res: Vec<(String, i32)>)
    ensures
        args_view(res@) == args_view(args@),
{
    let mut res: Vec<(String, i32)> = Vec::new();
    let mut i: usize = 0;
    while i < args.len()
        invariant
            i <= args@.len(),
            args_view(res@) =~= args_view(args@).subrange(0, i as int),
        decreases args@.len() - i,
    {
        let name = args[i].0.clone();
        let size = args[i].1;
        res.push((name, size));
        assert(args_view(args@).subrange(0, i + 1) =~= args_view(args@).subrange(0, i as int).push(
            (args@[i as int].0@, args@[i as int].1),
        ));
        i = i + 1;
    }
    assert(args_view(args@).subrange(0, i as int) =~= args_view(args@));
    res
}

impl Clone for FunctionSig {
    fn clone(&self) -> (res: Self)
        ensures
            res@ == self@,
    {
        FunctionSig { args: clone_args(&self.args), label: self.label.clone() }
    }
}

/// The offsets of a frame's variables, by name; a later entry for a name
/// replaces an earlier one.
pub open spec fn id_map(s: Seq<(String, i32)>) -> Map<Seq<char>, i32>
    decreases s.len(),
{
    if s.len() == 0 {
        Map::empty()
    } else {
        id_map(s.drop_last()).insert(s.last().0@, s.last().1)
    }
}

/// The functions of a frame, by name; a later entry for a name replaces an
/// earlier one.
pub open spec fn fn_map(s: Seq<(String, FunctionSig)>) -> Map<Seq<char>, SigView>
    decreases s.len(),
{
    if s.len() == 0 {
        Map::empty()
    } else {
        fn_map(s.drop_last()).insert(s.last().0@, s.last().1@)
    }
}

proof fn lemma_id_map_take(s: Seq<(String, i32)>, i: int, k: Seq<char>)
    requires
        0 <= i <= s.len(),
        forall|j: int| i <= j < s.len() ==> (#[trigger] s[j]).0@ != k,
    ensures
        id_map(s).dom().contains(k) == id_map(s.take(i)).dom().contains(k),
        id_map(s).dom().contains(k) ==> id_map(s)[k] == id_map(s.take(i))[k],
    decreases s.len() - i,
{
    if i < s.len() {
        assert(s.drop_last().take(i) =~= s.take(i));
        lemma_id_map_take(s.drop_last(), i, k);
    } else {
        assert(s.take(i) =~= s);
    }
}

proof fn lemma_fn_map_take(s: Seq<(String, FunctionSig)>, i: int, k: Seq<char>)
    requires
        0 <= i <= s.len(),
        forall|j: int| i <= j < s.len() ==> (#[trigger] s[j]).0@ != k,
    ensures
        fn_map(s).dom().contains(k) == fn_map(s.take(i)).dom().contains(k),
        fn_map(s).dom().contains(k) ==> fn_map(s)[k] == fn_map(s.take(i))[k],
    decreases s.len() - i,
{
    if i < s.len() {
        assert(s.drop_last().take(i) =~= s.take(i));
        lemma_fn_map_take(s.drop_last(), i, k);
    } else {
        assert(s.take(i) =~= s);
    }
}

/// The symbols of one stack frame.
pub struct SymbolTable {
    table: Vec<(String, i32)>,
    function_table: Vec<(String, FunctionSig)>,
    parent: Option<usize>,
    furthest_offset: i32,
}

/// The mathematical form of a `SymbolTable`: variable offsets and function
/// signatures by name, the index of the enclosing frame, and the offset
/// furthest from the frame base in use.
pub struct TableView {
    pub ids: Map<Seq<char>, i32>,
    pub funcs: Map<Seq<char>, SigView>,
    pub parent: Option<usize>,
    pub furthest: i32,
}

impl View for SymbolTable {
    type V = TableView;

    closed spec fn view(&self) -> TableView {
        TableView {
            ids: id_map(self.table@),
            funcs: fn_map(self.function_table@),
            parent: self.parent,
            furthest: self.furthest_offset,
        }
    }
}

/// The table of a fresh frame.
pub open spec fn empty_table(parent: Option<usize>) -> TableView {
    TableView { ids: Map::empty(), funcs: Map::empty(), parent, furthest: 0 }
}

impl SymbolTable {
    fn new(parent: Option<usize>) -> (res: SymbolTable)
        ensures
            res@ == empty_table(parent),
    {
        let res = SymbolTable {
            table: Vec::new(),
            function_table: Vec::new(),
            parent,
            furthest_offset: 0,
        };
        assert(res@.ids =~= Map::empty());
        assert(res@.funcs =~= Map::empty());
        res
    }

    fn get_function(&self, id: &String) -> (res: Option<&FunctionSig>)
        ensures
            res is Some <==> self@.funcs.dom().contains(id@),
            res matches Some(f) ==> f@ == self@.funcs[id@],
    {
        let mut i = self.function_table.len();
        while i > 0
            invariant
                i <= self.function_table@.len(),
                forall|j: int| i <= j < self.function_table@.len() ==> (
                #[trigger] self.function_table@[j]).0@ != id@,
            decreases i,
        {
            i = i - 1;
            if self.function_table[i].0 == *id {
                proof {
                    let s = self.function_table@;
                    lemma_fn_map_take(s, i + 1, id@);
                    assert(s.take(i + 1).drop_last() =~= s.take(i as int));
                }
                return Some(&self.function_table[i].1);
            }
        }
        proof {
            lemma_fn_map_take(self.function_table@, 0, id@);
            assert(self.function_table@.take(0).len() == 0);
        }
        None
    }

    fn get_id(&self, id: &String) -> (res: Option<&i32>)
        ensures
            res is Some <==> self@.ids.dom().contains(id@),
            res matches Some(v) ==> *v == self@.ids[id@],
    {
        let mut i = self.table.len();
        while i > 0
            invariant
                i <= self.table@.len(),
                forall|j: int| i <= j < self.table@.len() ==> (#[trigger] self.table@[j]).0@ != id@,
            decreases i,
        {
            i = i - 1;
            if self.table[i].0 == *id {
                proof {
                    let s = self.table@;
                    lemma_id_map_take(s, i + 1, id@);
                    assert(s.take(i + 1).drop_last() =~= s.take(i as int));
                }
                return Some(&self.table[i].1);
            }
        }
        proof {
            lemma_id_map_take(self.table@, 0, id@);
            assert(self.table@.take(0).len() == 0);
        }
        None
    }

    fn new_id(&mut self, id: String, size: i32)
        requires
            old(self)@.furthest != i32::MIN,
            i32::MIN <= old(self)@.furthest + size <= i32::MAX,
        ensures
            final(self)@ == (TableView {
                ids: old(self)@.ids.insert(id@, (-old(self)@.furthest) as i32),
                furthest: (old(self)@.furthest + size) as i32,
                ..old(self)@
            }),
    {
        let ghost old_table = self.table@;
        self.table.push((id, -self.furthest_offset));
        assert(self.table@.drop_last() =~= old_table);
        self.furthest_offset += size;
    }

    fn add_function(&mut self, name: String, sig: FunctionSig)
        ensures
            final(self)@ == (TableView { funcs: old(self)@.funcs.insert(name@, sig@), ..old(self)@ }),
    {
        let ghost old_table = self.function_table@;
        self.function_table.push((name, sig));
        assert(self.function_table@.drop_last() =~= old_table);
    }
}

/// The label line that opens block number `n`.
pub open spec fn label_line(n: int) -> Seq<char> {
    "\n.L"@ + dec(n) + ":"@
}

/// The first block of the output: the assembler directives.
pub open spec fn header_text() -> Seq<char> {
    "\n.global .main\n.align 4\n"@
}

/// The entry block of the output.
pub open spec fn main_text() -> Seq<char> {
    "\n.main:\n; x29 is our sfb\n;x15 is our sp\nmov x29, sp\nmov x15, sp"@
}

/// The mathematical form of a `Handler`.
pub struct HandlerView {
    pub scopes: Seq<Seq<char>>,
    pub curr_scope: usize,
    pub curr_frame: usize,
    pub arena: Seq<TableView>,
    pub anchors: Seq<usize>,
}

impl HandlerView {
    /// A fresh handler: the header block, the entry block being written,
    /// and one frame without parent.
    pub open spec fn initial() -> HandlerView {
        HandlerView {
            scopes: seq![header_text(), main_text()],
            curr_scope: 1,
            curr_frame: 0,
            arena: seq![empty_table(None)],
            anchors: Seq::empty(),
        }
    }

    /// `text` appended to the block being written.
    pub open spec fn push(self, text: Seq<char>) -> Option<HandlerView> {
        if self.curr_scope < self.scopes.len() {
            Some(
                HandlerView {
                    scopes: self.scopes.update(
                        self.curr_scope as int,
                        self.scopes[self.curr_scope as int] + text,
                    ),
                    ..self
                },
            )
        } else {
            None
        }
    }

    /// A new labelled block at the end, which becomes the one being written.
    pub open spec fn new_scope(self) -> HandlerView {
        HandlerView {
            scopes: self.scopes.push(label_line(self.scopes.len() as int)),
            curr_scope: self.scopes.len() as usize,
            ..self
        }
    }

    /// The block before the current one becomes the one being written.
    pub open spec fn prev_scope(self) -> Option<HandlerView> {
        if self.curr_scope > 0 {
            Some(HandlerView { curr_scope: (self.curr_scope - 1) as usize, ..self })
        } else {
            None
        }
    }

    /// Whether the current frame exists.
    pub open spec fn frame_ok(self) -> bool {
        self.curr_frame < self.arena.len()
    }

    /// The table of the current frame.
    pub open spec fn frame(self) -> TableView {
        self.arena[self.curr_frame as int]
    }

    /// The current frame's table replaced by `t`.
    pub open spec fn set_frame(self, t: TableView) -> HandlerView {
        HandlerView { arena: self.arena.update(self.curr_frame as int, t), ..self }
    }

    /// The current frame grown by `size` bytes.
    pub open spec fn grow(self, size: int) -> Option<HandlerView> {
        if self.frame_ok() && i32::MIN <= self.frame().furthest + size <= i32::MAX {
            Some(
                self.set_frame(
                    TableView { furthest: (self.frame().furthest + size) as i32, ..self.frame() },
                ),
            )
        } else {
            None
        }
    }

    /// The offset of variable `id`, looked up in the current frame and then
    /// in its parent. `None` where the name is in neither (or a frame index
    /// is out of range): there is no such variable.
    pub open spec fn lookup_id(self, id: Seq<char>) -> Option<i32> {
        if !self.frame_ok() {
            None
        } else if self.frame().ids.dom().contains(id) {
            Some(self.frame().ids[id])
        } else {
            match self.frame().parent {
                Some(p) => if p < self.arena.len() && self.arena[p as int].ids.dom().contains(id) {
                    Some(self.arena[p as int].ids[id])
                } else {
                    None
                },
                None => None,
            }
        }
    }

    /// The signature of function `id`, looked up in the current frame and
    /// then in its parent; `None` where the lookup panics.
    pub open spec fn lookup_function(self, id: Seq<char>) -> Option<SigView> {
        if !self.frame_ok() {
            None
        } else if self.frame().funcs.dom().contains(id) {
            Some(self.frame().funcs[id])
        } else {
            match self.frame().parent {
                Some(p) => if p < self.arena.len() && self.arena[p as int].funcs.dom().contains(id) {
                    Some(self.arena[p as int].funcs[id])
                } else {
                    None
                },
                None => None,
            }
        }
    }

    /// Variable `id` placed at the current end of the frame, which then
    /// grows by `size` bytes.
    pub open spec fn add_id(self, id: Seq<char>, size: int) -> Option<HandlerView> {
        if self.frame_ok() && self.frame().furthest != i32::MIN && i32::MIN <= self.frame().furthest
            + size <= i32::MAX {
            Some(
                self.set_frame(
                    TableView {
                        ids: self.frame().ids.insert(id, (-self.frame().furthest) as i32),
                        furthest: (self.frame().furthest + size) as i32,
                        ..self.frame()
                    },
                ),
            )
        } else {
            None
        }
    }

    /// The variables of `args` placed one after another.
    pub open spec fn add_ids(self, args: Seq<(Seq<char>, i32)>) -> Option<HandlerView>
        decreases args.len(),
    {
        if args.len() == 0 {
            Some(self)
        } else {
            match self.add_id(args[0].0, args[0].1 as int) {
                Some(h) => h.add_ids(args.drop_first()),
                None => None,
            }
        }
    }

    /// A fresh frame whose parent is the current one, which it replaces.
    pub open spec fn new_stack_frame(self) -> HandlerView {
        HandlerView {
            arena: self.arena.push(empty_table(Some(self.curr_frame))),
            curr_frame: self.arena.len() as usize,
            ..self
        }
    }

    /// Function `name` recorded in the current frame with the label of block
    /// `scope`; then a new frame for its body, with eight bytes reserved and
    /// the parameters placed after them.
    pub open spec fn new_function(self, name: Seq<char>, scope: i32, args: Seq<(Seq<char>, i32)>) -> Option<HandlerView> {
        if !self.frame_ok() {
            None
        } else {
            let sig = SigView { args, label: ".L"@ + dec(scope as int) };
            let h1 = self.set_frame(TableView { funcs: self.frame().funcs.insert(name, sig), ..self.frame() });
            let h2 = h1.new_stack_frame();
            match h2.grow(8) {
                Some(h3) => h3.add_ids(args),
                None => None,
            }
        }
    }

    /// A branch to the next block, which is opened.
    pub open spec fn insert_break(self) -> Option<HandlerView> {
        match self.push("\n; break statement\nb .L"@ + dec(self.curr_scope + 1)) {
            Some(h) => Some(h.new_scope()),
            None => None,
        }
    }

    /// The current block recorded as a target of `break`.
    pub open spec fn new_break_anchor(self) -> HandlerView {
        HandlerView { anchors: self.anchors.push(self.curr_scope), ..self }
    }
}

/// Lines written one after another, each after a tab and followed by a
/// newline.
pub open spec fn tabbed(ls: Seq<Seq<char>>) -> Seq<char>
    decreases ls.len(),
{
    if ls.len() == 0 {
        Seq::empty()
    } else {
        tabbed(ls.drop_last()) + "\t"@ + ls.last() + "\n"@
    }
}

/// The formatted text of a block other than the first: its first two lines,
/// then its other lines indented. `None` if it has fewer than two lines.
pub open spec fn fmt_scope(s: Seq<char>) -> Option<Seq<char>> {
    let ls = lines(s);
    if ls.len() < 2 {
        None
    } else {
        Some(ls[0] + "\n"@ + ls[1] + "\n"@ + tabbed(ls.subrange(2, ls.len() as int)))
    }
}

/// The formatted text of blocks `0..=k`: the first three lines of the first
/// block, then each other block formatted.
pub open spec fn fmt_scopes_upto(scopes: Seq<Seq<char>>, k: nat) -> Option<Seq<char>>
    decreases k,
{
    if k == 0 {
        let ls = lines(scopes[0]);
        if ls.len() < 3 {
            None
        } else {
            Some(ls[0] + "\n"@ + ls[1] + "\n"@ + ls[2] + "\n"@)
        }
    } else {
        match (fmt_scopes_upto(scopes, (k - 1) as nat), fmt_scope(scopes[k as int])) {
            (Some(a), Some(b)) => Some(a + b),
            _ => None,
        }
    }
}

/// The whole output text, trimmed; `None` where formatting panics (there
/// is no block, the first has fewer than three lines, or another fewer
/// than two).
pub open spec fn fmt_scopes(scopes: Seq<Seq<char>>) -> Option<Seq<char>> {
    if scopes.len() == 0 {
        None
    } else {
        match fmt_scopes_upto(scopes, (scopes.len() - 1) as nat) {
            Some(t) => Some(trim(t)),
            None => None,
        }
    }
}

/// The lines that listing the blocks prints: for each block, without its
/// first character, its pieces between newlines, all but the first after a
/// tab.
pub open spec fn listing(scopes: Seq<Seq<char>>) -> Seq<Seq<char>>
    decreases scopes.len(),
{
    if scopes.len() == 0 {
        Seq::empty()
    } else {
        let s = scopes.last();
        let body = if s.len() == 0 {
            s
        } else {
            s.drop_first()
        };
        let p = split_nl(body);
        listing(scopes.drop_last()) + seq![p[0]] + p.drop_first().map_values(|l: Seq<char>| "\t"@ + l)
    }
}

/// The code generator's state: the text of every block, the block being
/// written, the symbol tables of all frames and the frame in use, and the
/// blocks that `break` may leave.
pub struct Handler {
    scopes: Vec<String>,
    curr_scope: usize,
    curr_frame: usize,
    sym_arena: Vec<SymbolTable>,
    break_anchors: Vec<usize>,
}

pub open spec fn tables_view(s: Seq<SymbolTable>) -> Seq<TableView> {
    s.map_values(|t: SymbolTable| t@)
}

impl View for Handler {
    type V = HandlerView;

    closed spec fn view(&self) -> HandlerView {
        HandlerView {
            scopes: strs_view(self.scopes@),
            curr_scope: self.curr_scope,
            curr_frame: self.curr_frame,
            arena: tables_view(self.sym_arena@),
            anchors: self.break_anchors@,
        }
    }
}

fn label_text(n: usize) -> (res: String)
    ensures
        res@ == label_line(n as int),
{
    let mut label = String::new();
    label.append("\n.L");
    push_decimal(&mut label, n as i128);
    label.append(":");
    assert(label@ =~= label_line(n as int));
    label
}

impl Handler {
    pub fn new() -> (res: Handler)
        ensures
            res@ == HandlerView::initial(),
    {
        let mut handler = Handler {
            scopes: vec![String::from_str("\n.global .main\n.align 4\n")],
            curr_scope: 0,
            break_anchors: Vec::new(),
            sym_arena: vec![SymbolTable::new(None)],
            curr_frame: 0,
        };
        handler.curr_scope = handler.scopes.len();
        handler.scopes.push(String::new());
        handler.push_to_scope("\n.main:\n; x29 is our sfb\n;x15 is our sp\nmov x29, sp\nmov x15, sp");
        assert(handler@.scopes =~= HandlerView::initial().scopes);
        assert(handler@.arena =~= HandlerView::initial().arena);
        assert(handler@.anchors =~= HandlerView::initial().anchors);
        handler
    }

    fn new_scope(&mut self)
        ensures
            final(self)@ == old(self)@.new_scope(),
    {
        self.curr_scope = self.scopes.len();
        let label = label_text(self.curr_scope);
        let ghost before = self.scopes@;
        self.scopes.push(label);
        assert(strs_view(self.scopes@) =~= strs_view(before).push(label@));
    }

    #[allow(dead_code)]
    fn prev_scope(&mut self)
        requires
            old(self)@.prev_scope() is Some,
        ensures
            final(self)@ == old(self)@.prev_scope().unwrap(),
    {
        self.curr_scope -= 1;
    }

    fn push_to_scope(&mut self, string: &str)
        requires
            old(self)@.push(string@) is Some,
        ensures
            final(self)@ == old(self)@.push(string@).unwrap(),
    {
        let ghost before = self.scopes@;
        self.scopes[self.curr_scope].append(string);
        assert(strs_view(self.scopes@) =~= strs_view(before).update(
            self.curr_scope as int,
            before[self.curr_scope as int]@ + string@,
        ));
    }

    /// The output text: the first three lines of the first block, then
    /// every other block as its first two lines followed by its other lines
    /// indented by a tab, with white space trimmed from both ends.
    pub fn format_scopes(&self) -> (res: String)
        requires
            fmt_scopes(self@.scopes) is Some,
        ensures
            res@ == fmt_scopes(self@.scopes).unwrap(),
    {
        let ghost scopes = self@.scopes;
        let mut ret = String::new();
        let lines0 = lines_of(self.scopes[0].as_str());
        proof {
            lemma_fmt_upto_some(scopes, (scopes.len() - 1) as nat, 0);
            assert(scopes[0] == self.scopes@[0]@);
            assert(strs_view(lines0@)[0] == lines0@[0]@);
            assert(strs_view(lines0@)[1] == lines0@[1]@);
            assert(strs_view(lines0@)[2] == lines0@[2]@);
        }
        ret.append(lines0[0].as_str());
        ret.append("\n");
        ret.append(lines0[1].as_str());
        ret.append("\n");
        ret.append(lines0[2].as_str());
        ret.append("\n");
        assert(fmt_scopes_upto(scopes, 0) == Some(ret@));
        let mut scope: usize = 1;
        while scope < self.scopes.len()
            invariant
                scopes == self@.scopes,
                scopes.len() == self.scopes@.len(),
                1 <= scope <= scopes.len(),
                fmt_scopes(scopes) is Some,
                fmt_scopes_upto(scopes, (scope - 1) as nat) == Some(ret@),
            decreases scopes.len() - scope,
        {
            let ls = lines_of(self.scopes[scope].as_str());
            let ghost before = ret@;
            let ghost lv = strs_view(ls@);
            proof {
                assert(scopes[scope as int] == self.scopes@[scope as int]@);
                lemma_fmt_upto_some(scopes, (scopes.len() - 1) as nat, scope as nat);
                assert(lv[0] == ls@[0]@);
                assert(lv[1] == ls@[1]@);
            }
            ret.append(ls[0].as_str());
            ret.append("\n");
            ret.append(ls[1].as_str());
            ret.append("\n");
            let ghost head = ret@;
            let mut j: usize = 2;
            while j < ls.len()
                invariant
                    2 <= j <= ls@.len(),
                    lv == strs_view(ls@),
                    ret@ == head + tabbed(lv.subrange(2, j as int)),
                decreases ls@.len() - j,
            {
                ret.append("\t");
                ret.append(ls[j].as_str());
                ret.append("\n");
                proof {
                    assert(lv.subrange(2, j + 1).drop_last() =~= lv.subrange(2, j as int));
                    assert(lv[j as int] == ls@[j as int]@);
                    assert(ret@ =~= head + tabbed(lv.subrange(2, j + 1)));
                }
                j = j + 1;
            }
            proof {
                assert(lv.subrange(2, lv.len() as int) =~= lv.subrange(2, j as int));
                assert(ret@ =~= before + fmt_scope(scopes[scope as int]).unwrap());
            }
            scope = scope + 1;
        }
        trim_string(ret.as_str())
    }

    /// The lines that listing the blocks prints, in order.
    pub fn print_lines(&self) -> (res: Vec<String>)
        ensures
            strs_view(res@) == listing(self@.scopes),
    {
        let ghost scopes = self@.scopes;
        let mut res: Vec<String> = Vec::new();
        let mut k: usize = 0;
        assert(scopes.subrange(0, 0) =~= Seq::<Seq<char>>::empty());
        while k < self.scopes.len()
            invariant
                scopes == self@.scopes,
                scopes.len() == self.scopes@.len(),
                k <= scopes.len(),
                strs_view(res@) == listing(scopes.subrange(0, k as int)),
            decreases scopes.len() - k,
        {
            let scope = self.scopes[k].as_str();
            assert(scope@ == scopes[k as int]);
            let n = scope.unicode_len();
            let body = if n == 0 {
                scope
            } else {
                scope.substring_char(1, n)
            };
            assert(n > 0 ==> body@ =~= scope@.drop_first());
            let pieces = split_newlines(body);
            proof {
                crate::compiler::text::lemma_split_nl_nonempty(body@);
            }
            let ghost p = split_nl(body@);
            let ghost start = strs_view(res@);
            assert(strs_view(pieces@)[0] == pieces@[0]@);
            res.push(pieces[0].clone());
            assert(strs_view(res@) =~= start + seq![p[0]]);
            let mut j: usize = 1;
            while j < pieces.len()
                invariant
                    1 <= j <= pieces@.len(),
                    strs_view(pieces@) == p,
                    p.len() >= 1,
                    strs_view(res@) =~= start + seq![p[0]] + p.drop_first().subrange(0, j - 1).map_values(
                        |l: Seq<char>| "\t"@ + l,
                    ),
                decreases pieces@.len() - j,
            {
                let mut line = String::new();
                line.append("\t");
                line.append(pieces[j].as_str());
                let ghost r0 = strs_view(res@);
                res.push(line);
                proof {
                    assert(strs_view(res@) =~= r0.push(line@));
                    assert(p[j as int] == pieces@[j as int]@);
                    assert(p.drop_first().subrange(0, j as int).map_values(|l: Seq<char>| "\t"@ + l)
                        =~= p.drop_first().subrange(0, j - 1).map_values(|l: Seq<char>| "\t"@ + l).push(
                        "\t"@ + p[j as int]));
                }
                j = j + 1;
            }
            proof {
                assert(p.drop_first().subrange(0, j - 1) =~= p.drop_first());
                let sub = scopes.subrange(0, k + 1);
                assert(sub.drop_last() =~= scopes.subrange(0, k as int));
                assert(sub.last() == scopes[k as int]);
            }
            k = k + 1;
        }
        assert(scopes.subrange(0, scopes.len() as int) =~= scopes);
        res
    }

    fn insert_break(&mut self)
        requires
            old(self)@.insert_break() is Some,
        ensures
            final(self)@ == old(self)@.insert_break().unwrap(),
    {
        let mut text = String::new();
        text.append("\n; break statement\nb .L");
        push_decimal(&mut text, self.curr_scope as i128 + 1);
        self.push_to_scope(text.as_str());
        self.new_scope();
    }

    fn new_break_anchor(&mut self)
        ensures
            final(self)@ == old(self)@.new_break_anchor(),
    {
        self.break_anchors.push(self.curr_scope);
    }

    fn new_stack_frame(&mut self)
        ensures
            final(self)@ == old(self)@.new_stack_frame(),
    {
        let ghost before = self.sym_arena@;
        self.sym_arena.push(SymbolTable::new(Some(self.curr_frame)));
        self.curr_frame = self.sym_arena.len() - 1;
        assert(tables_view(self.sym_arena@) =~= tables_view(before).push(empty_table(Some(old(self).curr_frame))));
    }

    /// The stack offset of variable `id`, from the current frame or its
    /// parent. A name that is in neither has no offset (the lookup panics),
    /// so it is left out by `requires`.
    fn get_id(&self, id: &String) -> (res: Option<&i32>)
        requires
            self@.lookup_id(id@) is Some,
        ensures
            res matches Some(v) && self@.lookup_id(id@) == Some(*v),
    {
        assert(self@.frame() == self.sym_arena@[self.curr_frame as int]@);
        let sym_res = self.sym_arena[self.curr_frame].get_id(id);
        if sym_res.is_none() {
            return match &self.sym_arena[self.curr_frame].parent {
                Some(parent) => {
                    assert(self@.arena[*parent as int] == self.sym_arena@[*parent as int]@);
                    Some(self.sym_arena[*parent].get_id(id).expect("Symbol not found"))
                },
                None => None,
            };
        }
        sym_res
    }

    fn get_function(&self, id: &String) -> (res: Option<&FunctionSig>)
        requires
            self@.lookup_function(id@) is Some,
        ensures
            res matches Some(f) && self@.lookup_function(id@) == Some(f@),
    {
        assert(self@.frame() == self.sym_arena@[self.curr_frame as int]@);
        let sym_res = self.sym_arena[self.curr_frame].get_function(id);
        if sym_res.is_none() {
            return match &self.sym_arena[self.curr_frame].parent {
                Some(parent) => {
                    assert(self@.arena[*parent as int] == self.sym_arena@[*parent as int]@);
                    Some(self.sym_arena[*parent].get_function(id).expect("Symbol not found"))
                },
                None => {
                    proof {
                        assert(false);
                    }
                    None
                },
            };
        }
        sym_res
    }

    fn new_id(&mut self, id: String, size: i32)
        requires
            old(self)@.add_id(id@, size as int) is Some,
        ensures
            final(self)@ == old(self)@.add_id(id@, size as int).unwrap(),
    {
        let ghost before = self.sym_arena@;
        assert(self@.frame() == self.sym_arena@[self.curr_frame as int]@);
        self.sym_arena[self.curr_frame].new_id(id, size);
        assert(tables_view(self.sym_arena@) =~= tables_view(before).update(
            self.curr_frame as int,
            self.sym_arena@[self.curr_frame as int]@,
        ));
    }

    #[allow(dead_code)]
    fn new_8_byte(&mut self, id: String)
        requires
            old(self)@.add_id(id@, 8) is Some,
        ensures
            final(self)@ == old(self)@.add_id(id@, 8).unwrap(),
    {
        self.new_id(id, 8);
    }

    fn new_expr_lit(&mut self)
        requires
            old(self)@.grow(8) is Some,
        ensures
            final(self)@ == old(self)@.grow(8).unwrap(),
    {
        let ghost before = self.sym_arena@;
        assert(self@.frame() == self.sym_arena@[self.curr_frame as int]@);
        self.sym_arena[self.curr_frame].furthest_offset += 8;
        assert(tables_view(self.sym_arena@) =~= tables_view(before).update(
            self.curr_frame as int,
            self.sym_arena@[self.curr_frame as int]@,
        ));
    }

    fn unload_expr_lit(&mut self)
        requires
            old(self)@.grow(-8) is Some,
        ensures
            final(self)@ == old(self)@.grow(-8).unwrap(),
    {
        let ghost before = self.sym_arena@;
        assert(self@.frame() == self.sym_arena@[self.curr_frame as int]@);
        self.sym_arena[self.curr_frame].furthest_offset -= 8;
        assert(tables_view(self.sym_arena@) =~= tables_view(before).update(
            self.curr_frame as int,
            self.sym_arena@[self.curr_frame as int]@,
        ));
    }

    fn new_function(&mut self, name: String, scope: i32, args: Vec<(String, i32)>)
        requires
            old(self)@.new_function(name@, scope, args_view(args@)) is Some,
        ensures
            final(self)@ == old(self)@.new_function(name@, scope, args_view(args@)).unwrap(),
    {
        let mut label = String::new();
        label.append(".L");
        push_decimal(&mut label, scope as i128);
        let function_sig = FunctionSig { args: clone_args(&args), label };
        let ghost sig_view = function_sig@;
        assert(sig_view.label =~= ".L"@ + dec(scope as int));
        assert(sig_view == (SigView { args: args_view(args@), label: ".L"@ + dec(scope as int) }));
        let ghost before = self.sym_arena@;
        assert(self@.frame() == self.sym_arena@[self.curr_frame as int]@);
        self.sym_arena[self.curr_frame].add_function(name, function_sig);
        assert(tables_view(self.sym_arena@) =~= tables_view(before).update(
            self.curr_frame as int,
            self.sym_arena@[self.curr_frame as int]@,
        ));
        self.new_stack_frame();
        self.new_expr_lit();
        let ghost all = args_view(args@);
        assert(all.subrange(0, all.len() as int) =~= all);
        let mut i: usize = 0;
        while i < args.len()
            invariant
                i <= args@.len(),
                all == args_view(args@),
                old(self)@.new_function(name@, scope, all) == self@.add_ids(all.subrange(i as int, all.len() as int)),
                self@.add_ids(all.subrange(i as int, all.len() as int)) is Some,
            decreases args@.len() - i,
        {
            let ghost rest = all.subrange(i as int, all.len() as int);
            assert(rest.drop_first() =~= all.subrange(i + 1, all.len() as int));
            self.new_id(args[i].0.clone(), args[i].1);
            i = i + 1;
        }
        assert(all.subrange(i as int, all.len() as int) =~= Seq::<(Seq<char>, i32)>::empty());
    }
}

proof fn lemma_fmt_upto_some(scopes: Seq<Seq<char>>, k: nat, j: nat)
    requires
        j <= k,
        fmt_scopes_upto(scopes, k) is Some,
    ensures
        fmt_scopes_upto(scopes, j) is Some,
        0 < j ==> fmt_scope(scopes[j as int]) is Some,
    decreases k,
{
    if j < k {
        lemma_fmt_upto_some(scopes, (k - 1) as nat, j);
    }
}

/// `text` appended to the block being written, after a step that may have
/// panicked.
pub open spec fn then_push(o: Option<HandlerView>, text: Seq<char>) -> Option<HandlerView> {
    match o {
        Some(h) => h.push(text),
        None => None,
    }
}

/// The current frame grown by `size` bytes, after a step that may have
/// panicked.
pub open spec fn then_grow(o: Option<HandlerView>, size: int) -> Option<HandlerView> {
    match o {
        Some(h) => h.grow(size),
        None => None,
    }
}

/// The instruction of a binary operator node, for the nodes that are one.
pub open spec fn binop_text(t: NodeType) -> Option<Seq<char>> {
    match t {
        NodeType::Add => Some("\nadd x9, x9, x10"@),
        NodeType::Sub => Some("\nsub x9, x9, x10"@),
        NodeType::Div => Some("\nudiv x9, x9, x10"@),
        NodeType::Mul => Some("\nmul x9, x9, x10"@),
        NodeType::MNeg => Some("\nmneg x9, x9, x10"@),
        NodeType::BAnd => Some("\nand x9, x9, x10"@),
        NodeType::BOr => Some("\nor x9, x9, x10"@),
        NodeType::BXor => Some("\nxor x9, x9, x10"@),
        _ => None,
    }
}

/// The instruction that combines the old value with the new one for a
/// compound assignment.
pub open spec fn op_text(op: AssignmentOpType) -> Seq<char> {
    match op {
        AssignmentOpType::AddEq => "\nadd x9, x9, x10"@,
        AssignmentOpType::SubEq => "\nsub x9, x9, x10"@,
        AssignmentOpType::MulEq => "\nmul x9, x9, x10"@,
        AssignmentOpType::DivEq => "\nudiv x9, x9, x10"@,
        AssignmentOpType::BOrEq => "\nbor x9, x9, x10"@,
        AssignmentOpType::BAndEq => "\nand x9, x9, x10"@,
        AssignmentOpType::BXorEq => "\nxor x9, x9, x10"@,
        AssignmentOpType::Eq => Seq::empty(),
    }
}

/// The absolute value of an `i32` other than `i32::MIN`.
pub open spec fn abs32(x: i32) -> int {
    if x < 0 {
        -x
    } else {
        x as int
    }
}

/// The parameters of a function declaration: the names of the declarations
/// among its first `n` children, each of eight bytes.
pub open spec fn decl_args(items: Seq<Tree>, n: int) -> Seq<(Seq<char>, i32)>
    decreases n,
{
    if n <= 0 {
        Seq::empty()
    } else {
        decl_args(items, n - 1) + match items[n - 1].token {
            NodeType::Declaration((id, _)) => seq![(id@, 8i32)],
            _ => Seq::empty(),
        }
    }
}

/// The two values on top of the stack popped into registers, combined by
/// the instruction `op`, and the result pushed.
pub open spec fn combine_top_two(h: HandlerView, op: Seq<char>) -> Option<HandlerView> {
    then_grow(
        then_push(
            then_push(
                then_grow(then_grow(h.push("\n\n; load from stack\nldr x10, [x15], #8\nldr x9, [x15], #8"@), -8), -8),
                op,
            ),
            "\nstr x9, [x15, #-8]!"@,
        ),
        8,
    )
}

/// The stack code of an expression: it leaves the value on top of the stack.
pub open spec fn gen_expr(t: Tree, h: HandlerView) -> Option<HandlerView>
    decreases t, 2int, 0int,
{
    match t.token {
        NodeType::NumLiteral(val) => then_grow(
            then_push(h.push("\nmov x9, #"@ + dec(val as int)), "\nstr x9, [x15, #-8]!"@),
            8,
        ),
        NodeType::Id(name) => match h.lookup_id(name@) {
            Some(off) => then_grow(
                h.push("\nldr x9, [x29, #"@ + dec(off as int) + "]\nstr x9, [x15, #-8]!"@),
                8,
            ),
            _ => None,
        },
        NodeType::FunctionCall(name) => then_grow(
            then_push(gen_function_call(t, h, name@), "\n; assume ret is TOS"@),
            8,
        ),
        NodeType::Adr(id) => match h.lookup_id(id@) {
            Some(off) => if off == i32::MIN {
                None
            } else {
                then_grow(
                    h.push(
                        "\n; getting the adr of: "@ + id@ + "\nmov x9, x29\nmov x10, #"@ + dec(abs32(off))
                            + "\nsub x9, x9, x10\nstr x9, [x15, #-8]!"@,
                    ),
                    8,
                )
            },
            _ => None,
        },
        NodeType::DeRef => gen_deref(t, h),
        NodeType::Array => match t.children {
            Some(items) => match h.push("\n; new array\nmov x11, x15 ; anchor ptr"@) {
                Some(h1) => then_grow(
                    then_push(gen_expr_items(t, 0, h1), "\nstr x11, [x15, #-8]! ; str array anchor TOS"@),
                    8,
                ),
                None => None,
            },
            None => None,
        },
        _ => match t.children {
            Some(items) => if items.len() < 2 {
                None
            } else {
                match gen_expr(items[0], h) {
                    Some(h1) => match gen_expr(items[1], h1) {
                        Some(h2) => match binop_text(t.token) {
                            Some(op) => combine_top_two(h2, op),
                            None => None,
                        },
                        None => None,
                    },
                    None => None,
                }
            },
            None => None,
        },
    }
}

/// The code of the elements of an array literal from the `i`-th on.
pub open spec fn gen_expr_items(t: Tree, i: int, h: HandlerView) -> Option<HandlerView>
    decreases t, 1int, (match t.children { Some(items) => items.len() - i, None => 0 }),
{
    match t.children {
        Some(items) => if i < 0 || i >= items.len() {
            Some(h)
        } else {
            match gen_expr(items[i], h) {
                Some(h1) => match h1.push("\n"@) {
                    Some(h2) => gen_expr_items(t, i + 1, h2),
                    None => None,
                },
                None => None,
            }
        },
        None => Some(h),
    }
}

/// A call of function `name`: the old frame base is saved, one argument
/// per parameter is evaluated, and the function's label is called.
pub open spec fn gen_function_call(t: Tree, h: HandlerView, name: Seq<char>) -> Option<HandlerView>
    decreases t, 1int, 0int,
{
    match then_grow(h.push("\n\n; place old sfb\nstr x29, [x15, #-8]!\nmov x10, x15"@), 8) {
        Some(h1) => match t.children {
            Some(items) => match h1.lookup_function(name) {
                Some(sig) => then_push(
                    then_push(gen_call_args(t, 0, sig.args.len() as int, h1), "\nmov x29, x10"@),
                    "\nbl "@ + sig.label,
                ),
                None => None,
            },
            None => None,
        },
        None => None,
    }
}

/// The code of the arguments `i..n` of a call.
pub open spec fn gen_call_args(t: Tree, i: int, n: int, h: HandlerView) -> Option<HandlerView>
    decreases t, 0int, n - i,
{
    if i >= n {
        Some(h)
    } else {
        match t.children {
            Some(items) => if i < 0 || i >= items.len() {
                None
            } else {
                match gen_expr(items[i], h) {
                    Some(h1) => gen_call_args(t, i + 1, n, h1),
                    None => None,
                }
            },
            None => None,
        }
    }
}

/// A dereference: the address is evaluated and replaced by the value it
/// points to.
pub open spec fn gen_deref(t: Tree, h: HandlerView) -> Option<HandlerView>
    decreases t, 1int, 0int,
{
    match t.children {
        Some(items) => if items.len() != 1 {
            None
        } else {
            then_push(
                gen_expr(items[0], h),
                "\n\n; deref expr\nldr x9, [x15], #8\nsub x9, x9, #8\nldr x10, [x9]\nstr x10, [x15, #-8]!"@,
            )
        },
        None => None,
    }
}

/// A condition: comparisons branch to a new block, `&&` and `||` combine
/// their operands, and anything else is evaluated as an expression.
pub open spec fn gen_condition_expr(t: Tree, h: HandlerView) -> Option<HandlerView>
    decreases t, 3int, 0int,
{
    let items = match t.children {
        Some(v) => v,
        None => Seq::empty(),
    };
    match t.token {
        NodeType::AndCmp => if items.len() < 2 {
            None
        } else {
            match gen_condition_expr(items[0], h) {
                Some(h1) => gen_condition_expr(items[1], h1),
                None => None,
            }
        },
        NodeType::OrCmp => if items.len() < 2 {
            None
        } else {
            match gen_condition_expr(items[0], h) {
                Some(h1) => if h1.curr_scope == 0 {
                    None
                } else {
                    let h2 = HandlerView {
                        curr_scope: (h1.curr_scope - 1) as usize,
                        scopes: if h1.scopes.len() == 0 {
                            h1.scopes
                        } else {
                            h1.scopes.drop_last()
                        },
                        ..h1
                    };
                    gen_condition_expr(items[1], h2)
                },
                None => None,
            }
        },
        NodeType::NeqCmp => if items.len() < 2 {
            None
        } else {
            match gen_condition_expr(items[0], h) {
                Some(h1) => match gen_condition_expr(items[1], h1) {
                    Some(h2) => match h2.push(
                        "\nldr x9, [x15], #8\nldr x10, [x15], #8\ncmp x9, x10\nbne .L"@ + dec(h2.curr_scope + 1),
                    ) {
                        Some(h3) => Some(h3.new_scope()),
                        None => None,
                    },
                    None => None,
                },
                None => None,
            }
        },
        NodeType::EqCmp => if items.len() < 2 {
            None
        } else {
            match gen_condition_expr(items[0], h) {
                Some(h1) => match gen_condition_expr(items[1], h1) {
                    Some(h2) => match then_grow(
                        then_grow(
                            h2.push(
                                "\nldr x9, [x15], #8\nldr x10, [x15], #8\ncmp x9, x10\nbeq .L"@ + dec(h2.curr_scope + 1),
                            ),
                            -8,
                        ),
                        -8,
                    ) {
                        Some(h3) => Some(h3.new_scope()),
                        None => None,
                    },
                    None => None,
                },
                None => None,
            }
        },
        _ => gen_expr(t, h),
    }
}

/// A variable declaration: a comment, the initial value pushed, and the
/// name bound to the slot that holds it.
pub open spec fn gen_declare(t: Tree, h: HandlerView, name: Seq<char>) -> Option<HandlerView>
    decreases t, 6int, 0int,
{
    if !h.frame_ok() || h.frame().furthest + 8 > i32::MAX {
        None
    } else {
        match h.push(
            "\n\n; var dec: "@ + name + ", offset: "@ + dec(h.frame().furthest + 8) + " (wrong for arrays)"@,
        ) {
            Some(h1) => match t.children {
                Some(items) => if items.len() < 1 {
                    None
                } else {
                    match gen_expr(items[0], h1) {
                        Some(h2) => then_push(h2.add_id(name, 0), "\n"@),
                        None => None,
                    }
                },
                None => None,
            },
            None => None,
        }
    }
}

/// The value of an assignment computed, combined with the old value for a
/// compound operator, and stored: at frame offset `rsp`, or through the
/// address computed before when `deref` holds.
pub open spec fn gen_assign_store(
    v: Tree,
    h: HandlerView,
    op: AssignmentOpType,
    deref: bool,
    rsp: Seq<char>,
) -> Option<HandlerView>
    decreases v, 3int, 0int,
{
    match then_grow(then_push(gen_expr(v, h), "\nldr x9, [x15], #8"@), -8) {
        Some(h3) => {
            let h4 = if op != AssignmentOpType::Eq {
                let load = if deref {
                    "\nsub x12, x29, x12\nldr x10, [x13]"@
                } else {
                    "\nldr x10, [x29, "@ + rsp + "]"@
                };
                then_push(h3.push(load), op_text(op))
            } else {
                Some(h3)
            };
            if deref {
                let h5 = if op == AssignmentOpType::Eq {
                    then_push(h4, "\nsub x12, x29, x12"@)
                } else {
                    h4
                };
                then_push(h5, "\nstr x9, [x13]\n"@)
            } else {
                then_push(h4, "\nstr x9, [x29, "@ + rsp + "]\n"@)
            }
        },
        None => None,
    }
}

/// An assignment to a variable, or through a dereferenced address.
pub open spec fn gen_assignment(t: Tree, h: HandlerView) -> Option<HandlerView>
    decreases t, 6int, 0int,
{
    match h.push("\n; variable assignment"@) {
        Some(h1) => match t.children {
            Some(items) => if items.len() != 2 {
                None
            } else {
                match t.token {
                    NodeType::AssignmentOp(op) => match items[0].token {
                        NodeType::Id(name) => match h1.lookup_id(name@) {
                            Some(pos) => gen_assign_store(items[1], h1, op, false, "#"@ + dec(pos as int)),
                            _ => None,
                        },
                        NodeType::DeRef => match items[0].children {
                            Some(target) => if target.len() < 1 {
                                None
                            } else {
                                match h1.push("\n\n; deref assignment"@) {
                                    Some(h2) => match then_push(
                                        gen_expr(target[0], h2),
                                        "\n\n; str offset to assign to\nmov x12, x15"@,
                                    ) {
                                        Some(h4) => gen_assign_store(items[1], h4, op, true, "x12"@),
                                        None => None,
                                    },
                                    None => None,
                                }
                            },
                            None => None,
                        },
                        _ => None,
                    },
                    _ => None,
                }
            },
            None => None,
        },
        None => None,
    }
}

/// A function declaration: a new block with the function's code, a new
/// frame with its parameters, and the body; the current block and frame
/// are then restored.
pub open spec fn gen_function_declare(t: Tree, h: HandlerView, name: Seq<char>, ty: RhTypes) -> Option<HandlerView>
    decreases t, 6int, 0int,
{
    match t.children {
        Some(items) => if items.len() < 1 {
            None
        } else {
            match h.new_scope().push("\n; function declaration"@) {
                Some(h2) => {
                    let args = decl_args(items, items.len() - 1);
                    match h2.new_function(name, h2.curr_scope as i32, args) {
                        Some(h3) => {
                            let body = items[items.len() - 1];
                            let h4 = if body.token is Scope {
                                gen_scope(body, h3, ScopeType::Function(ty))
                            } else {
                                Some(h3)
                            };
                            let h5 = if ty == RhTypes::Void {
                                then_push(h4, "\n\n; unload stack\nmov x15, x29\nadd x15, x15, #8\nldr x29, [x29]\nret"@)
                            } else {
                                h4
                            };
                            match h5 {
                                Some(h5) => Some(HandlerView { curr_scope: h.curr_scope, curr_frame: h.curr_frame, ..h5 }),
                                None => None,
                            }
                        },
                        None => None,
                    }
                },
                None => None,
            }
        },
        None => None,
    }
}

/// An `if` statement: the condition, the body, a return, and the previous
/// block made current again.
pub open spec fn gen_if(t: Tree, h: HandlerView) -> Option<HandlerView>
    decreases t, 6int, 0int,
{
    match h.push("\n\n; if statement"@) {
        Some(h1) => match t.children {
            Some(items) => if items.len() < 2 {
                None
            } else {
                match then_push(gen_condition_expr(items[0], h1), "\n; scope of if statement"@) {
                    Some(h3) => match then_push(gen_scope(items[1], h3, ScopeType::If), "\nret"@) {
                        Some(h5) => h5.prev_scope(),
                        None => None,
                    },
                    None => None,
                }
            },
            None => None,
        },
        None => None,
    }
}

/// A `while` statement: a branch to a new block holding the condition and
/// the body, then a new block after it.
pub open spec fn gen_while(t: Tree, h: HandlerView) -> Option<HandlerView>
    decreases t, 6int, 0int,
{
    match t.children {
        Some(items) => if items.len() < 2 {
            None
        } else {
            match h.push("\nb .L"@ + dec(h.curr_scope + 1)) {
                Some(h1) => match gen_condition_expr(items[0], h1.new_break_anchor().new_scope()) {
                    Some(h3) => match gen_scope(items[1], h3, ScopeType::While) {
                        Some(h4) => Some(h4.new_scope()),
                        None => None,
                    },
                    None => None,
                },
                None => None,
            }
        },
        None => None,
    }
}

/// An assertion: the condition, then an exit with status 1.
pub open spec fn gen_assert(t: Tree, h: HandlerView) -> Option<HandlerView>
    decreases t, 6int, 0int,
{
    match t.children {
        Some(items) => if items.len() != 1 {
            None
        } else {
            then_push(gen_condition_expr(items[0], h), "\nmov x0, #1\nmov x8, #93\nsvc #0"@)
        },
        None => None,
    }
}

/// A `return` statement: the value is computed, the frame unwound and the
/// value left on top of the caller's stack.
pub open spec fn gen_return(t: Tree, h: HandlerView) -> Option<HandlerView>
    decreases t, 6int, 0int,
{
    match h.push("\n\n; evaluate return statement and place on stack"@) {
        Some(h1) => match t.children {
            Some(items) => if items.len() < 1 {
                None
            } else {
                then_push(
                    then_push(
                        then_push(gen_expr(items[0], h1), "\n\n; ldr expr into x9\nldr x9, [x15], #8"@),
                        "\n\n; reset sfb\nmov x15, x29\nadd x15, x15, #8\nldr x29, [x29]"@,
                    ),
                    "\nstr x9, [x15, #-8]!\nret"@,
                )
            },
            None => None,
        },
        None => None,
    }
}

/// The text of the `putchar` system call.
pub open spec fn putchar_text() -> Seq<char> {
    "\n\n; putchar\nmov x0, #1 ; stdout\nmov x1, x15 ; put from TOS\nmov x2, #1 ; print 1 char\nmov x16, #4 ; write\nsvc #0x80\n; unload the TOS\nadd x15, x15, #8\n"@
}

/// A `putchar` statement: the value is computed and written to standard
/// output.
pub open spec fn gen_putchar(t: Tree, h: HandlerView) -> Option<HandlerView>
    decreases t, 6int, 0int,
{
    match t.children {
        Some(items) => if items.len() < 1 {
            None
        } else {
            then_grow(then_push(gen_expr(items[0], h), putchar_text()), -8)
        },
        None => None,
    }
}

/// One statement of a block; the flag tells whether it was a `return`,
/// which ends the block.
pub open spec fn gen_item(c: Tree, h: HandlerView, st: ScopeType) -> Option<(HandlerView, bool)>
    decreases c, 7int, 0int,
{
    let done = match c.token {
        NodeType::Declaration((name, _)) => gen_declare(c, h, name@),
        NodeType::AssignmentOp(_) => gen_assignment(c, h),
        NodeType::If => gen_if(c, h),
        NodeType::While => gen_while(c, h),
        NodeType::FunctionCall(id) => gen_function_call(c, h, id@),
        NodeType::FunctionDecaration((id, ty)) => gen_function_declare(c, h, id@, ty),
        NodeType::Break => h.insert_break(),
        NodeType::Asm(text) => h.push("\n"@ + text@),
        NodeType::PutChar => gen_putchar(c, h),
        NodeType::Assert => gen_assert(c, h),
        _ => Some(h),
    };
    match c.token {
        NodeType::Return => if st is Function {
            match gen_return(c, h) {
                Some(h1) => Some((h1, true)),
                None => None,
            }
        } else {
            None
        },
        _ => match done {
            Some(h1) => Some((h1, false)),
            None => None,
        },
    }
}

/// The statements of a block from the `i`-th on; the flag tells whether a
/// `return` ended the block.
pub open spec fn gen_scope_items(t: Tree, i: int, h: HandlerView, st: ScopeType) -> Option<(HandlerView, bool)>
    decreases t, 4int, (match t.children { Some(items) => items.len() - i, None => 0 }),
{
    match t.children {
        Some(items) => if i < 0 || i >= items.len() {
            Some((h, false))
        } else {
            match gen_item(items[i], h, st) {
                Some((h1, true)) => Some((h1, true)),
                Some((h1, false)) => gen_scope_items(t, i + 1, h1, st),
                None => None,
            }
        },
        None => Some((h, false)),
    }
}

/// A block: its statements in order, and for a loop body a branch to the
/// next block unless a `return` ended it.
pub open spec fn gen_scope(t: Tree, h: HandlerView, st: ScopeType) -> Option<HandlerView>
    decreases t, 5int, 0int,
{
    match t.children {
        Some(_) => scope_finish(gen_scope_items(t, 0, h, st), st),
        None => None,
    }
}

/// The end of a block: for a loop body that no `return` ended, a branch to
/// the next block.
pub open spec fn scope_finish(o: Option<(HandlerView, bool)>, st: ScopeType) -> Option<HandlerView> {
    match o {
        Some((h1, true)) => Some(h1),
        Some((h1, false)) => if st == ScopeType::While {
            h1.push("\n; break statement\nb .L"@ + dec(h1.curr_scope + 1))
        } else {
            Some(h1)
        },
        None => None,
    }
}

/// The exit of the program.
pub open spec fn exit_text() -> Seq<char> {
    "\n\n; exit program gracefully\nmov x0, #0\nmov x16, #1\nsvc #0x80"@
}

/// The whole output for a tree: a fresh handler, the program's block when
/// the root is a `Program` node, the exit, and the formatted text; `None`
/// where generation panics.
pub open spec fn gen_main(t: Tree) -> Option<Seq<char>> {
    let h0 = HandlerView::initial();
    let h1 = if t.token is Program {
        match t.children {
            Some(items) => if items.len() < 1 {
                None
            } else {
                gen_scope(items[0], h0, ScopeType::Program)
            },
            None => None,
        }
    } else {
        Some(h0)
    };
    match then_push(h1, exit_text()) {
        Some(h2) => fmt_scopes(h2.scopes),
        None => None,
    }
}

/// `prefix`, the decimal numeral of `n`, then `suffix`.
fn numbered(prefix: &str, n: i128, suffix: &str) -> (res: String)
    ensures
        res@ == prefix@ + dec(n as int) + suffix@,
{
    let mut text = String::new();
    text.append(prefix);
    push_decimal(&mut text, n);
    text.append(suffix);
    assert(text@ =~= prefix@ + dec(n as int) + suffix@);
    text
}

/// `a`, `b` and `c` in a row.
fn joined(a: &str, b: &str, c: &str) -> (res: String)
    ensures
        res@ == a@ + b@ + c@,
{
    let mut text = String::new();
    text.append(a);
    text.append(b);
    text.append(c);
    assert(text@ =~= a@ + b@ + c@);
    text
}

proof fn lemma_children(node: TokenNode)
    requires
        node.children is Some,
    ensures
        node@.children == Some(trees(node.children->Some_0@)),
        trees(node.children->Some_0@).len() == node.children->Some_0@.len(),
        forall|i: int| 0 <= i < node.children->Some_0@.len()
            ==> #[trigger] trees(node.children->Some_0@)[i] == node.children->Some_0@[i]@,
{
    lemma_trees_index(node.children->Some_0@);
}

/// Generates the code of a block's statements.
pub fn scope_code_gen(node: &TokenNode, handler: &mut Handler, scope_type: ScopeType)
    requires
        gen_scope(node@, old(handler)@, scope_type) is Some,
    ensures
        final(handler)@ == gen_scope(node@, old(handler)@, scope_type).unwrap(),
    decreases node@, 5int,
{
    let ghost target = gen_scope(node@, handler@, scope_type);
    let children = node.children.as_ref().expect("Scope to have children");
    proof {
        lemma_children(*node);
    }
    let ghost items = trees(children@);
    let mut i: usize = 0;
    while i < children.len()
        invariant
            node@.children == Some(items),
            items == trees(children@),
            items.len() == children@.len(),
            forall|j: int| 0 <= j < children@.len() ==> #[trigger] items[j] == children@[j]@,
            i <= children@.len(),
            target is Some,
            target == gen_scope(node@, old(handler)@, scope_type),
            scope_finish(gen_scope_items(node@, i as int, handler@, scope_type), scope_type) == target,
        decreases children@.len() - i,
    {
        let child_node = &children[i];
        let ghost h = handler@;
        let ghost c = items[i as int];
        assert(c == child_node@);
        assert(gen_scope_items(node@, i as int, h, scope_type) == match gen_item(c, h, scope_type) {
            Some((h1, true)) => Some((h1, true)),
            Some((h1, false)) => gen_scope_items(node@, i + 1, h1, scope_type),
            None => None,
        });
        assert(gen_item(c, h, scope_type) is Some);
        match &child_node.token {
            NodeType::Declaration(arg) => {
                let _ = declare_code_gen(child_node, handler, arg.0.clone(), arg.1);
            },
            NodeType::AssignmentOp(_) => {
                assignment_code_gen(child_node, handler);
            },
            NodeType::If => {
                if_code_gen(child_node, handler);
            },
            NodeType::While => {
                while_code_gen(child_node, handler);
            },
            NodeType::Loop => {},
            NodeType::FunctionCall(id) => {
                function_call_code_gen(child_node, handler, id.clone());
            },
            NodeType::FunctionDecaration((id, t)) => {
                function_declare_code_gen(child_node, handler, id.clone(), *t);
            },
            NodeType::Break => {
                handler.insert_break();
            },
            NodeType::Return => {
                if let ScopeType::Function(_t) = scope_type {
                    return_statement_code_gen(child_node, handler);
                    return;
                }
            },
            NodeType::Asm(text) => {
                asm_code_gen(child_node, handler, text.clone());
            },
            NodeType::PutChar => {
                putchar_code_gen(child_node, handler);
            },
            NodeType::Assert => {
                assert_code_gen(child_node, handler);
            },
            _ => {},
        }
        i = i + 1;
    }
    assert(gen_scope_items(node@, i as int, handler@, scope_type) == Some((handler@, false)));
    if scope_type == ScopeType::While {
        let text = numbered("\n; break statement\nb .L", handler.curr_scope as i128 + 1, "");
        assert(text@ =~= "\n; break statement\nb .L"@ + dec(handler@.curr_scope + 1)) by {
            assert(""@ =~= Seq::<char>::empty()) by {
                reveal_strlit("");
            }
        }
        handler.push_to_scope(text.as_str());
    }
}

/// Generates a variable declaration: its initial value is pushed and the
/// name bound to the new slot, eight bytes past the end of the current
/// frame. Returns the generated code, which is also appended to the block
/// being written.
pub fn declare_code_gen(node: &TokenNode, handler: &mut Handler, name: String, _t: RhTypes) -> (code: String)
    requires
        gen_declare(node@, old(handler)@, name@) is Some,
    ensures
        final(handler)@ == gen_declare(node@, old(handler)@, name@).unwrap(),
        appends_to_block(old(handler)@, final(handler)@),
        final(handler)@.scopes[old(handler)@.curr_scope as int] == old(handler)@.scopes[old(
            handler,
        )@.curr_scope as int] + code@,
    decreases node@, 6int,
{
    proof {
        lemma_declare_appends(node@, handler@, name@);
    }
    let ghost old_view = handler@;
    let k = handler.curr_scope;
    assert(handler.scopes@[k as int]@ == handler@.scopes[k as int]);
    let start = handler.scopes[k].as_str().unicode_len();
    assert(handler@.frame() == handler.sym_arena@[handler.curr_frame as int]@);
    let offset = handler.sym_arena[handler.curr_frame].furthest_offset as i128 + 8;
    let mut text = joined("\n\n; var dec: ", name.as_str(), ", offset: ");
    push_decimal(&mut text, offset);
    text.append(" (wrong for arrays)");
    handler.push_to_scope(text.as_str());
    let children = node.children.as_ref().expect("Node to have children");
    proof {
        lemma_children(*node);
    }
    expr_code_gen(&children[0], handler);
    handler.new_id(name, 0);
    handler.push_to_scope("\n");
    assert(handler.scopes@[k as int]@ == handler@.scopes[k as int]);
    let block = handler.scopes[k].as_str();
    let end = block.unicode_len();
    proof {
        assert(old_view.scopes[k as int].is_prefix_of(handler@.scopes[k as int]));
    }
    let code = block.substring_char(start, end).to_owned();
    assert(handler@.scopes[k as int] =~= old_view.scopes[k as int] + code@);
    code
}

/// Generates an assignment from an `AssignmentOp(op)` node over the target
/// and the value: to a variable's slot, or through an address.
pub fn assignment_code_gen(node: &TokenNode, handler: &mut Handler)
    requires
        gen_assignment(node@, old(handler)@) is Some,
    ensures
        final(handler)@ == gen_assignment(node@, old(handler)@).unwrap(),
    decreases node@, 6int,
{
    handler.push_to_scope("\n; variable assignment");
    let children = node.children.as_ref().expect("Assignment token need children");
    proof {
        lemma_children(*node);
    }
    let op = match &node.token {
        NodeType::AssignmentOp(op) => *op,
        _ => {
            proof {
                assert(false);
            }
            return ;
        },
    };
    let deref_target: bool;
    let mut relative_stack_position = String::new();
    match &children[0].token {
        NodeType::Id(name) => {
            let pos = *handler.get_id(name).expect("Undefined Identifier");
            relative_stack_position = numbered("#", pos as i128, "");
            assert(relative_stack_position@ =~= "#"@ + dec(pos as int)) by {
                reveal_strlit("");
            }
            deref_target = false;
        },
        NodeType::DeRef => {
            handler.push_to_scope("\n\n; deref assignment");
            let target = children[0].children.as_ref().expect("deref must have children in assignment");
            proof {
                lemma_children(children@[0]);
            }
            expr_code_gen(&target[0], handler);
            handler.push_to_scope("\n\n; str offset to assign to\nmov x12, x15");
            relative_stack_position = String::from_str("x12");
            deref_target = true;
        },
        _ => {
            proof {
                assert(false);
            }
            return ;
        },
    }
    expr_code_gen(&children[1], handler);
    handler.push_to_scope("\nldr x9, [x15], #8");
    handler.unload_expr_lit();
    if op != AssignmentOpType::Eq {
        if deref_target {
            handler.push_to_scope("\nsub x12, x29, x12\nldr x10, [x13]");
        } else {
            let load = joined("\nldr x10, [x29, ", relative_stack_position.as_str(), "]");
            handler.push_to_scope(load.as_str());
        }
        match op {
            AssignmentOpType::AddEq => handler.push_to_scope("\nadd x9, x9, x10"),
            AssignmentOpType::SubEq => handler.push_to_scope("\nsub x9, x9, x10"),
            AssignmentOpType::MulEq => handler.push_to_scope("\nmul x9, x9, x10"),
            AssignmentOpType::DivEq => handler.push_to_scope("\nudiv x9, x9, x10"),
            AssignmentOpType::BOrEq => handler.push_to_scope("\nbor x9, x9, x10"),
            AssignmentOpType::BAndEq => handler.push_to_scope("\nand x9, x9, x10"),
            AssignmentOpType::BXorEq => handler.push_to_scope("\nxor x9, x9, x10"),
            AssignmentOpType::Eq => {},
        };
    }
    if deref_target {
        if op == AssignmentOpType::Eq {
            handler.push_to_scope("\nsub x12, x29, x12");
        }
        handler.push_to_scope("\nstr x9, [x13]\n");
    } else {
        let store = joined("\nstr x9, [x29, ", relative_stack_position.as_str(), "]\n");
        handler.push_to_scope(store.as_str());
    }
}

/// Generates an expression's stack code, which leaves its value on top of
/// the stack.
fn expr_code_gen(node: &TokenNode, handler: &mut Handler)
    requires
        gen_expr(node@, old(handler)@) is Some,
    ensures
        final(handler)@ == gen_expr(node@, old(handler)@).unwrap(),
    decreases node@, 2int,
{
    match &node.token {
        NodeType::NumLiteral(val) => {
            let text = numbered("\nmov x9, #", *val as i128, "");
            assert(text@ =~= "\nmov x9, #"@ + dec(*val as int)) by {
                reveal_strlit("");
            }
            handler.push_to_scope(text.as_str());
            handler.push_to_scope("\nstr x9, [x15, #-8]!");
            handler.new_expr_lit();
        },
        NodeType::Id(name) => {
            let offset = *handler.get_id(name).expect("Undefined identifier");
            let text = numbered("\nldr x9, [x29, #", offset as i128, "]\nstr x9, [x15, #-8]!");
            handler.push_to_scope(text.as_str());
            handler.new_expr_lit();
        },
        NodeType::FunctionCall(name) => {
            function_call_code_gen(node, handler, name.clone());
            handler.push_to_scope("\n; assume ret is TOS");
            handler.new_expr_lit();
        },
        NodeType::Adr(id) => {
            let offset = *handler.get_id(id).unwrap();
            let relative_offset: i32 = if offset < 0 {
                -offset
            } else {
                offset
            };
            let head = joined("\n; getting the adr of: ", id.as_str(), "\nmov x9, x29\nmov x10, #");
            let tail = numbered(head.as_str(), relative_offset as i128, "\nsub x9, x9, x10\nstr x9, [x15, #-8]!");
            handler.push_to_scope(tail.as_str());
            handler.new_expr_lit();
        },
        NodeType::DeRef => {
            deref_code_gen(node, handler);
        },
        NodeType::Array => {
            let children = node.children.as_ref().expect("Array node should have children");
            proof {
                lemma_children(*node);
            }
            handler.push_to_scope("\n; new array\nmov x11, x15 ; anchor ptr");
            let ghost target = gen_expr(node@, old(handler)@);
            let mut i: usize = 0;
            while i < children.len()
                invariant
                    node@.children == Some(trees(children@)),
                    trees(children@).len() == children@.len(),
                    forall|j: int| 0 <= j < children@.len() ==> #[trigger] trees(children@)[j] == children@[j]@,
                    i <= children@.len(),
                    target == gen_expr(node@, old(handler)@),
                    target is Some,
                    target == then_grow(
                        then_push(gen_expr_items(node@, i as int, handler@), "\nstr x11, [x15, #-8]! ; str array anchor TOS"@),
                        8,
                    ),
                decreases children@.len() - i,
            {
                let ghost h = handler@;
                assert(gen_expr_items(node@, i as int, h) == match gen_expr(children@[i as int]@, h) {
                    Some(h1) => match h1.push("\n"@) {
                        Some(h2) => gen_expr_items(node@, i + 1, h2),
                        None => None,
                    },
                    None => None,
                });
                expr_code_gen(&children[i], handler);
                handler.push_to_scope("\n");
                i = i + 1;
            }
            assert(gen_expr_items(node@, i as int, handler@) == Some(handler@));
            handler.push_to_scope("\nstr x11, [x15, #-8]! ; str array anchor TOS");
            handler.new_expr_lit();
        },
        _ => {
            let children = node.children.as_ref().unwrap();
            proof {
                lemma_children(*node);
            }
            expr_code_gen(&children[0], handler);
            expr_code_gen(&children[1], handler);
            handler.push_to_scope("\n\n; load from stack\nldr x10, [x15], #8\nldr x9, [x15], #8");
            handler.unload_expr_lit();
            handler.unload_expr_lit();
            match &node.token {
                NodeType::Add => handler.push_to_scope("\nadd x9, x9, x10"),
                NodeType::Sub => handler.push_to_scope("\nsub x9, x9, x10"),
                NodeType::Div => handler.push_to_scope("\nudiv x9, x9, x10"),
                NodeType::Mul => handler.push_to_scope("\nmul x9, x9, x10"),
                NodeType::MNeg => handler.push_to_scope("\nmneg x9, x9, x10"),
                NodeType::BAnd => handler.push_to_scope("\nand x9, x9, x10"),
                NodeType::BOr => handler.push_to_scope("\nor x9, x9, x10"),
                NodeType::BXor => handler.push_to_scope("\nxor x9, x9, x10"),
                _ => {
                    proof {
                        assert(false);
                    }
                },
            };
            handler.push_to_scope("\nstr x9, [x15, #-8]!");
            handler.new_expr_lit();
        },
    }
}

/// Generates a function declaration: the function's own block and frame,
/// with its parameters, and its body.
pub fn function_declare_code_gen(node: &TokenNode, handler: &mut Handler, name: String, t: RhTypes)
    requires
        gen_function_declare(node@, old(handler)@, name@, t) is Some,
    ensures
        final(handler)@ == gen_function_declare(node@, old(handler)@, name@, t).unwrap(),
    decreases node@, 6int,
{
    let children = node.children.as_ref().expect("Function node must have children");
    proof {
        lemma_children(*node);
    }
    let ghost items = trees(children@);
    let orig_scope = handler.curr_scope;
    let orig_frame = handler.curr_frame;
    handler.new_scope();
    handler.push_to_scope("\n; function declaration");
    let function_scope = handler.curr_scope;
    let mut args: Vec<(String, i32)> = Vec::new();
    let mut child: usize = 0;
    let last = children.len() - 1;
    assert(args_view(args@) =~= decl_args(items, 0));
    while child < last
        invariant
            last == children@.len() - 1,
            items == trees(children@),
            items.len() == children@.len(),
            forall|j: int| 0 <= j < children@.len() ==> #[trigger] items[j] == children@[j]@,
            child <= last,
            args_view(args@) == decl_args(items, child as int),
        decreases last - child,
    {
        assert(items[child as int] == children@[child as int]@);
        let ghost before = args@;
        if let NodeType::Declaration((id, t)) = &children[child].token {
            let size: i32 = match t {
                RhTypes::Char => 8,
                RhTypes::Int => 8,
                RhTypes::Void => 8,
            };
            args.push((id.clone(), size));
            assert(args_view(args@) =~= args_view(before) + seq![(id@, 8i32)]);
        } else {
            assert(args_view(args@) =~= args_view(before) + Seq::<(Seq<char>, i32)>::empty());
        }
        child = child + 1;
    }
    handler.new_function(name, function_scope as i32, args);
    let scope_child = &children[last];
    assert(scope_child@ == items[items.len() - 1]);
    if let NodeType::Scope(_) = scope_child.token {
        scope_code_gen(scope_child, handler, ScopeType::Function(t));
    }
    if t == RhTypes::Void {
        handler.push_to_scope("\n\n; unload stack\nmov x15, x29\nadd x15, x15, #8\nldr x29, [x29]\nret");
    }
    handler.curr_scope = orig_scope;
    handler.curr_frame = orig_frame;
}

/// Generates a call: the old frame base is saved, one argument per
/// parameter of the callee is evaluated, and the callee's label is called.
pub fn function_call_code_gen(node: &TokenNode, handler: &mut Handler, name: String)
    requires
        gen_function_call(node@, old(handler)@, name@) is Some,
    ensures
        final(handler)@ == gen_function_call(node@, old(handler)@, name@).unwrap(),
    decreases node@, 1int,
{
    handler.push_to_scope("\n\n; place old sfb\nstr x29, [x15, #-8]!\nmov x10, x15");
    handler.new_expr_lit();
    let children = node.children.as_ref().expect("Function has no children");
    proof {
        lemma_children(*node);
    }
    let function_sig = handler.get_function(&name).expect("Function id not found").clone();
    let ghost sig = function_sig@;
    let ghost target = gen_function_call(node@, old(handler)@, name@);
    let n = function_sig.args.len();
    let mut i: usize = 0;
    while i < n
        invariant
            n == sig.args.len(),
            sig == function_sig@,
            node@.children == Some(trees(children@)),
            trees(children@).len() == children@.len(),
            forall|j: int| 0 <= j < children@.len() ==> #[trigger] trees(children@)[j] == children@[j]@,
            i <= n,
            target == gen_function_call(node@, old(handler)@, name@),
            target is Some,
            target == then_push(then_push(gen_call_args(node@, i as int, n as int, handler@), "\nmov x29, x10"@), "\nbl "@ + sig.label),
        decreases n - i,
    {
        let ghost h = handler@;
        assert(gen_call_args(node@, i as int, n as int, h) == match gen_expr(children@[i as int]@, h) {
            Some(h1) => gen_call_args(node@, i + 1, n as int, h1),
            None => None,
        });
        expr_code_gen(&children[i], handler);
        i = i + 1;
    }
    handler.push_to_scope("\nmov x29, x10");
    let call = joined("\nbl ", function_sig.label.as_str(), "");
    assert(call@ =~= "\nbl "@ + sig.label) by {
        reveal_strlit("");
    }
    handler.push_to_scope(call.as_str());
}

/// Generates an `if` statement.
pub fn if_code_gen(node: &TokenNode, handler: &mut Handler)
    requires
        gen_if(node@, old(handler)@) is Some,
    ensures
        final(handler)@ == gen_if(node@, old(handler)@).unwrap(),
    decreases node@, 6int,
{
    handler.push_to_scope("\n\n; if statement");
    match &node.children {
        Some(children) => {
            proof {
                lemma_children(*node);
            }
            condition_expr_code_gen(&children[0], handler);
            handler.push_to_scope("\n; scope of if statement");
            scope_code_gen(&children[1], handler, ScopeType::If);
            handler.push_to_scope("\nret");
            handler.curr_scope -= 1;
        },
        None => {
            proof {
                assert(false);
            }
        },
    }
}

/// Generates a dereference: the value at the computed address replaces it
/// on the stack.
pub fn deref_code_gen(node: &TokenNode, handler: &mut Handler)
    requires
        gen_deref(node@, old(handler)@) is Some,
    ensures
        final(handler)@ == gen_deref(node@, old(handler)@).unwrap(),
    decreases node@, 1int,
{
    let children = node.children.as_ref().expect("DeRef node should have children");
    proof {
        lemma_children(*node);
    }
    expr_code_gen(&children[0], handler);
    handler.push_to_scope(
        "\n\n; deref expr\nldr x9, [x15], #8\nsub x9, x9, #8\nldr x10, [x9]\nstr x10, [x15, #-8]!",
    );
}

/// Generates a condition: comparisons branch to a new block.
pub fn condition_expr_code_gen(node: &TokenNode, handler: &mut Handler)
    requires
        gen_condition_expr(node@, old(handler)@) is Some,
    ensures
        final(handler)@ == gen_condition_expr(node@, old(handler)@).unwrap(),
    decreases node@, 3int,
{
    let empty: Vec<TokenNode> = Vec::new();
    let children: &Vec<TokenNode> = match &node.children {
        Some(c) => c,
        None => &empty,
    };
    proof {
        if node.children is Some {
            lemma_children(*node);
        }
        assert(trees(empty@) =~= Seq::<Tree>::empty());
    }
    match &node.token {
        NodeType::AndCmp => {
            condition_expr_code_gen(&children[0], handler);
            condition_expr_code_gen(&children[1], handler);
        },
        NodeType::OrCmp => {
            condition_expr_code_gen(&children[0], handler);
            handler.curr_scope -= 1;
            let ghost before = handler.scopes@;
            handler.scopes.pop();
            assert(strs_view(handler.scopes@) =~= if before.len() == 0 {
                strs_view(before)
            } else {
                strs_view(before).drop_last()
            });
            condition_expr_code_gen(&children[1], handler);
        },
        NodeType::NeqCmp => {
            condition_expr_code_gen(&children[0], handler);
            condition_expr_code_gen(&children[1], handler);
            let text = numbered(
                "\nldr x9, [x15], #8\nldr x10, [x15], #8\ncmp x9, x10\nbne .L",
                handler.curr_scope as i128 + 1,
                "",
            );
            assert(text@ =~= "\nldr x9, [x15], #8\nldr x10, [x15], #8\ncmp x9, x10\nbne .L"@ + dec(handler@.curr_scope + 1)) by {
                reveal_strlit("");
            }
            handler.push_to_scope(text.as_str());
            handler.new_scope();
        },
        NodeType::EqCmp => {
            condition_expr_code_gen(&children[0], handler);
            condition_expr_code_gen(&children[1], handler);
            let text = numbered(
                "\nldr x9, [x15], #8\nldr x10, [x15], #8\ncmp x9, x10\nbeq .L",
                handler.curr_scope as i128 + 1,
                "",
            );
            assert(text@ =~= "\nldr x9, [x15], #8\nldr x10, [x15], #8\ncmp x9, x10\nbeq .L"@ + dec(handler@.curr_scope + 1)) by {
                reveal_strlit("");
            }
            handler.push_to_scope(text.as_str());
            handler.unload_expr_lit();
            handler.unload_expr_lit();
            handler.new_scope();
        },
        _ => {
            expr_code_gen(node, handler);
        },
    }
}

/// Generates a `while` loop.
fn while_code_gen(node: &TokenNode, handler: &mut Handler)
    requires
        gen_while(node@, old(handler)@) is Some,
    ensures
        final(handler)@ == gen_while(node@, old(handler)@).unwrap(),
    decreases node@, 6int,
{
    match &node.children {
        Some(children) => {
            proof {
                lemma_children(*node);
            }
            let text = numbered("\nb .L", handler.curr_scope as i128 + 1, "");
            assert(text@ =~= "\nb .L"@ + dec(handler@.curr_scope + 1)) by {
                reveal_strlit("");
            }
            handler.push_to_scope(text.as_str());
            handler.new_break_anchor();
            handler.new_scope();
            condition_expr_code_gen(&children[0], handler);
            scope_code_gen(&children[1], handler, ScopeType::While);
            handler.new_scope();
        },
        None => {
            proof {
                assert(false);
            }
        },
    }
}

/// Generates an assertion, which exits with status 1.
fn assert_code_gen(node: &TokenNode, handler: &mut Handler)
    requires
        gen_assert(node@, old(handler)@) is Some,
    ensures
        final(handler)@ == gen_assert(node@, old(handler)@).unwrap(),
    decreases node@, 6int,
{
    let children = node.children.as_ref().expect("Assert missing children");
    proof {
        lemma_children(*node);
    }
    condition_expr_code_gen(&children[0], handler);
    handler.push_to_scope("\nmov x0, #1\nmov x8, #93\nsvc #0");
}

/// Generates a `return` statement.
fn return_statement_code_gen(node: &TokenNode, handler: &mut Handler)
    requires
        gen_return(node@, old(handler)@) is Some,
    ensures
        final(handler)@ == gen_return(node@, old(handler)@).unwrap(),
    decreases node@, 6int,
{
    handler.push_to_scope("\n\n; evaluate return statement and place on stack");
    let children = node.children.as_ref().expect("Return statement has no expression");
    proof {
        lemma_children(*node);
    }
    expr_code_gen(&children[0], handler);
    handler.push_to_scope("\n\n; ldr expr into x9\nldr x9, [x15], #8");
    handler.push_to_scope("\n\n; reset sfb\nmov x15, x29\nadd x15, x15, #8\nldr x29, [x29]");
    handler.push_to_scope("\nstr x9, [x15, #-8]!\nret");
}

/// Copies inline assembly text into the block being written.
fn asm_code_gen(_node: &TokenNode, handler: &mut Handler, str: String)
    requires
        old(handler)@.push("\n"@ + str@) is Some,
    ensures
        final(handler)@ == old(handler)@.push("\n"@ + str@).unwrap(),
{
    let text = joined("\n", str.as_str(), "");
    assert(text@ =~= "\n"@ + str@) by {
        reveal_strlit("");
    }
    handler.push_to_scope(text.as_str());
}

/// Generates a `putchar` statement.
fn putchar_code_gen(node: &TokenNode, handler: &mut Handler)
    requires
        gen_putchar(node@, old(handler)@) is Some,
    ensures
        final(handler)@ == gen_putchar(node@, old(handler)@).unwrap(),
    decreases node@, 6int,
{
    let children = node.children.as_ref().expect("Putchar node has no children");
    proof {
        lemma_children(*node);
    }
    expr_code_gen(&children[0], handler);
    handler.push_to_scope(
        "\n\n; putchar\nmov x0, #1 ; stdout\nmov x1, x15 ; put from TOS\nmov x2, #1 ; print 1 char\nmov x16, #4 ; write\nsvc #0x80\n; unload the TOS\nadd x15, x15, #8\n",
    );
    handler.unload_expr_lit();
}

/// Compiles a program tree to assembly text.
pub fn main(node: &TokenNode) -> (res: String)
    requires
        gen_main(node@) is Some,
    ensures
        res@ == gen_main(node@).unwrap(),
{
    let mut handler = Handler::new();
    if matches!(node.token, NodeType::Program) {
        let children = node.children.as_ref().unwrap();
        proof {
            lemma_children(*node);
        }
        scope_code_gen(&children[0], &mut handler, ScopeType::Program);
    }
    handler.push_to_scope("\n\n; exit program gracefully\nmov x0, #0\nmov x16, #1\nsvc #0x80");
    handler.format_scopes()
}

/// Writing `a` and then `b` to the current block is writing `a + b`.
pub proof fn law_push_concat(h: HandlerView, a: Seq<char>, b: Seq<char>)
    requires
        h.push(a) is Some,
    ensures
        h.push(a).unwrap().push(b) == h.push(a + b),
{
    let i = h.curr_scope as int;
    assert(h.scopes[i] + a + b =~= h.scopes[i] + (a + b));
    assert(h.push(a).unwrap().push(b).unwrap().scopes =~= h.push(a + b).unwrap().scopes);
}

/// Releasing the stack space just reserved restores the handler: what
/// `new_expr_lit` reserves, `unload_expr_lit` gives back.
pub proof fn law_grow_undo(h: HandlerView, n: int)
    requires
        h.grow(n) is Some,
    ensures
        h.grow(n).unwrap().grow(-n) == Some(h),
{
    let h1 = h.grow(n).unwrap();
    assert(h1.frame().furthest == h.frame().furthest + n);
    let h2 = h1.grow(-n).unwrap();
    assert(h2.frame() == h.frame());
    assert(h2.arena =~= h.arena);
}

/// After a variable is placed, looking it up gives the offset it was
/// placed at, and looking up any other name gives what it gave before.
pub proof fn law_add_id_lookup(h: HandlerView, id: Seq<char>, size: int, other: Seq<char>)
    requires
        h.add_id(id, size) is Some,
        other != id,
    ensures
        h.add_id(id, size).unwrap().lookup_id(id) == Some((-h.frame().furthest) as i32),
        h.add_id(id, size).unwrap().lookup_id(other) == h.lookup_id(other),
{
    let h1 = h.add_id(id, size).unwrap();
    assert(h1.frame().ids.dom().contains(id));
    assert(h1.frame().ids.dom().contains(other) == h.frame().ids.dom().contains(other));
    if h.frame().ids.dom().contains(other) {
        assert(h1.frame().ids[other] == h.frame().ids[other]);
    }
    match h.frame().parent {
        Some(p) => {
            if p < h.arena.len() && p != h.curr_frame {
                assert(h1.arena[p as int] == h.arena[p as int]);
            }
        },
        None => {},
    }
}

/// `b` is `a` with text appended to the block being written: the same
/// blocks, the same block being written and the same frame, every other
/// block unchanged, and the current block extended.
pub open spec fn appends_to_block(a: HandlerView, b: HandlerView) -> bool {
    &&& b.curr_scope == a.curr_scope
    &&& b.curr_frame == a.curr_frame
    &&& b.anchors == a.anchors
    &&& b.arena.len() == a.arena.len()
    &&& b.scopes.len() == a.scopes.len()
    &&& a.curr_scope < a.scopes.len()
    &&& a.scopes[a.curr_scope as int].is_prefix_of(b.scopes[a.curr_scope as int])
    &&& forall|i: int| 0 <= i < a.scopes.len() && i != a.curr_scope ==> b.scopes[i] == a.scopes[i]
}

proof fn lemma_appends_push(a: HandlerView, b: HandlerView, text: Seq<char>)
    requires
        appends_to_block(a, b) || (a == b && a.curr_scope < a.scopes.len()),
        b.push(text) is Some,
    ensures
        appends_to_block(a, b.push(text).unwrap()),
{
    let c = b.push(text).unwrap();
    let k = a.curr_scope as int;
    assert(c.scopes[k] == b.scopes[k] + text);
    assert(a.scopes[k].is_prefix_of(c.scopes[k])) by {
        assert(forall|j: int| 0 <= j < a.scopes[k].len() ==> c.scopes[k][j] == b.scopes[k][j]);
    }
}

proof fn lemma_appends_grow(a: HandlerView, b: HandlerView, size: int)
    requires
        appends_to_block(a, b),
        b.grow(size) is Some,
    ensures
        appends_to_block(a, b.grow(size).unwrap()),
{
}

proof fn lemma_appends_trans(a: HandlerView, b: HandlerView, c: HandlerView)
    requires
        appends_to_block(a, b),
        appends_to_block(b, c),
    ensures
        appends_to_block(a, c),
{
    let k = a.curr_scope as int;
    assert(a.scopes[k].is_prefix_of(c.scopes[k])) by {
        assert(forall|j: int| 0 <= j < a.scopes[k].len() ==> c.scopes[k][j] == b.scopes[k][j]);
    }
}

proof fn lemma_combine_appends(a: HandlerView, h: HandlerView, op: Seq<char>)
    requires
        appends_to_block(a, h),
        combine_top_two(h, op) is Some,
    ensures
        appends_to_block(a, combine_top_two(h, op).unwrap()),
{
    let h1 = h.push("\n\n; load from stack\nldr x10, [x15], #8\nldr x9, [x15], #8"@).unwrap();
    lemma_appends_push(a, h, "\n\n; load from stack\nldr x10, [x15], #8\nldr x9, [x15], #8"@);
    let h2 = h1.grow(-8).unwrap();
    lemma_appends_grow(a, h1, -8);
    let h3 = h2.grow(-8).unwrap();
    lemma_appends_grow(a, h2, -8);
    let h4 = h3.push(op).unwrap();
    lemma_appends_push(a, h3, op);
    let h5 = h4.push("\nstr x9, [x15, #-8]!"@).unwrap();
    lemma_appends_push(a, h4, "\nstr x9, [x15, #-8]!"@);
    lemma_appends_grow(a, h5, 8);
}

proof fn lemma_expr_appends(t: Tree, h: HandlerView)
    requires
        gen_expr(t, h) is Some,
    ensures
        appends_to_block(h, gen_expr(t, h).unwrap()),
    decreases t, 2int, 0int,
{
    match t.token {
        NodeType::NumLiteral(val) => {
            let t1 = "\nmov x9, #"@ + dec(val as int);
            lemma_appends_push(h, h, t1);
            let h1 = h.push(t1).unwrap();
            lemma_appends_push(h, h1, "\nstr x9, [x15, #-8]!"@);
            lemma_appends_grow(h, h1.push("\nstr x9, [x15, #-8]!"@).unwrap(), 8);
        },
        NodeType::Id(name) => {
            let off = h.lookup_id(name@).unwrap();
            let t1 = "\nldr x9, [x29, #"@ + dec(off as int) + "]\nstr x9, [x15, #-8]!"@;
            lemma_appends_push(h, h, t1);
            lemma_appends_grow(h, h.push(t1).unwrap(), 8);
        },
        NodeType::FunctionCall(name) => {
            lemma_call_appends(t, h, name@);
            let h1 = gen_function_call(t, h, name@).unwrap();
            lemma_appends_push(h, h1, "\n; assume ret is TOS"@);
            lemma_appends_grow(h, h1.push("\n; assume ret is TOS"@).unwrap(), 8);
        },
        NodeType::Adr(id) => {
            let off = h.lookup_id(id@).unwrap();
            let t1 = "\n; getting the adr of: "@ + id@ + "\nmov x9, x29\nmov x10, #"@ + dec(abs32(off))
                + "\nsub x9, x9, x10\nstr x9, [x15, #-8]!"@;
            lemma_appends_push(h, h, t1);
            lemma_appends_grow(h, h.push(t1).unwrap(), 8);
        },
        NodeType::DeRef => {
            lemma_deref_appends(t, h);
        },
        NodeType::Array => {
            let t0 = "\n; new array\nmov x11, x15 ; anchor ptr"@;
            lemma_appends_push(h, h, t0);
            let h1 = h.push(t0).unwrap();
            lemma_items_appends(t, 0, h1);
            lemma_appends_trans(h, h1, gen_expr_items(t, 0, h1).unwrap());
            let h2 = gen_expr_items(t, 0, h1).unwrap();
            lemma_appends_push(h, h2, "\nstr x11, [x15, #-8]! ; str array anchor TOS"@);
            lemma_appends_grow(h, h2.push("\nstr x11, [x15, #-8]! ; str array anchor TOS"@).unwrap(), 8);
        },
        _ => {
            let items = t.children->Some_0;
            lemma_expr_appends(items[0], h);
            let h1 = gen_expr(items[0], h).unwrap();
            lemma_expr_appends(items[1], h1);
            let h2 = gen_expr(items[1], h1).unwrap();
            lemma_appends_trans(h, h1, h2);
            lemma_combine_appends(h, h2, binop_text(t.token).unwrap());
        },
    }
}

proof fn lemma_items_appends(t: Tree, i: int, h: HandlerView)
    requires
        gen_expr_items(t, i, h) is Some,
        h.curr_scope < h.scopes.len(),
    ensures
        appends_to_block(h, gen_expr_items(t, i, h).unwrap()),
    decreases t, 1int, (match t.children { Some(items) => items.len() - i, None => 0 }),
{
    match t.children {
        Some(items) => if i < 0 || i >= items.len() {
            assert(gen_expr_items(t, i, h).unwrap() == h);
        } else {
            lemma_expr_appends(items[i], h);
            let h1 = gen_expr(items[i], h).unwrap();
            lemma_appends_push(h, h1, "\n"@);
            let h2 = h1.push("\n"@).unwrap();
            lemma_items_appends(t, i + 1, h2);
            lemma_appends_trans(h, h2, gen_expr_items(t, i + 1, h2).unwrap());
        },
        None => {
            assert(gen_expr_items(t, i, h).unwrap() == h);
        },
    }
}

proof fn lemma_call_appends(t: Tree, h: HandlerView, name: Seq<char>)
    requires
        gen_function_call(t, h, name) is Some,
    ensures
        appends_to_block(h, gen_function_call(t, h, name).unwrap()),
    decreases t, 1int, 0int,
{
    let t0 = "\n\n; place old sfb\nstr x29, [x15, #-8]!\nmov x10, x15"@;
    lemma_appends_push(h, h, t0);
    lemma_appends_grow(h, h.push(t0).unwrap(), 8);
    let h1 = h.push(t0).unwrap().grow(8).unwrap();
    let sig = h1.lookup_function(name).unwrap();
    lemma_args_appends(t, 0, sig.args.len() as int, h1);
    let h2 = gen_call_args(t, 0, sig.args.len() as int, h1).unwrap();
    lemma_appends_trans(h, h1, h2);
    lemma_appends_push(h, h2, "\nmov x29, x10"@);
    lemma_appends_push(h, h2.push("\nmov x29, x10"@).unwrap(), "\nbl "@ + sig.label);
}

proof fn lemma_args_appends(t: Tree, i: int, n: int, h: HandlerView)
    requires
        gen_call_args(t, i, n, h) is Some,
        h.curr_scope < h.scopes.len(),
    ensures
        appends_to_block(h, gen_call_args(t, i, n, h).unwrap()),
    decreases t, 0int, n - i,
{
    if i >= n {
        assert(gen_call_args(t, i, n, h).unwrap() == h);
    } else {
        let items = t.children->Some_0;
        lemma_expr_appends(items[i], h);
        let h1 = gen_expr(items[i], h).unwrap();
        lemma_args_appends(t, i + 1, n, h1);
        lemma_appends_trans(h, h1, gen_call_args(t, i + 1, n, h1).unwrap());
    }
}

proof fn lemma_deref_appends(t: Tree, h: HandlerView)
    requires
        gen_deref(t, h) is Some,
    ensures
        appends_to_block(h, gen_deref(t, h).unwrap()),
    decreases t, 1int, 0int,
{
    let items = t.children->Some_0;
    lemma_expr_appends(items[0], h);
    lemma_appends_push(
        h,
        gen_expr(items[0], h).unwrap(),
        "\n\n; deref expr\nldr x9, [x15], #8\nsub x9, x9, #8\nldr x10, [x9]\nstr x10, [x15, #-8]!"@,
    );
}

proof fn lemma_declare_appends(t: Tree, h: HandlerView, name: Seq<char>)
    requires
        gen_declare(t, h, name) is Some,
    ensures
        appends_to_block(h, gen_declare(t, h, name).unwrap()),
{
    let t0 = "\n\n; var dec: "@ + name + ", offset: "@ + dec(h.frame().furthest + 8) + " (wrong for arrays)"@;
    lemma_appends_push(h, h, t0);
    let h1 = h.push(t0).unwrap();
    let items = t.children->Some_0;
    lemma_expr_appends(items[0], h1);
    let h2 = gen_expr(items[0], h1).unwrap();
    lemma_appends_trans(h, h1, h2);
    let h3 = h2.add_id(name, 0).unwrap();
    assert(appends_to_block(h, h3));
    lemma_appends_push(h, h3, "\n"@);
}

/// An expression's code only adds to the block being written: the number
/// of blocks, the block being written and the current frame stay the same,
/// every other block is unchanged, and the current block starts with what
/// it held before.
pub proof fn law_expr_appends(t: Tree, h: HandlerView)
    requires
        gen_expr(t, h) is Some,
    ensures
        appends_to_block(h, gen_expr(t, h).unwrap()),
{
    lemma_expr_appends(t, h);
}

/// The statements of a block of kind `tok` with statements `items`.
pub open spec fn block_of(tok: NodeType, items: Seq<Tree>) -> Tree {
    Tree { token: tok, children: Some(items) }
}

/// The statements `a` and then, unless a `return` ended the block, the
/// statements `b` from the state that `a` left.
pub open spec fn then_items(o: Option<(HandlerView, bool)>, tok: NodeType, b: Seq<Tree>, st: ScopeType) -> Option<(HandlerView, bool)> {
    match o {
        Some((h1, true)) => Some((h1, true)),
        Some((h1, false)) => gen_scope_items(block_of(tok, b), 0, h1, st),
        None => None,
    }
}

proof fn lemma_items_tail(tok: NodeType, a: Seq<Tree>, b: Seq<Tree>, j: int, h: HandlerView, st: ScopeType)
    requires
        0 <= j <= b.len(),
    ensures
        gen_scope_items(block_of(tok, a + b), a.len() + j, h, st) == gen_scope_items(block_of(tok, b), j, h, st),
    decreases b.len() - j,
{
    let ab = block_of(tok, a + b);
    let bb = block_of(tok, b);
    if j < b.len() {
        assert((a + b)[a.len() + j] == b[j]);
        match gen_item(b[j], h, st) {
            Some((h1, false)) => {
                lemma_items_tail(tok, a, b, j + 1, h1, st);
                assert(a.len() + j + 1 == a.len() + (j + 1));
            },
            _ => {},
        }
    }
}

proof fn lemma_items_concat(tok: NodeType, a: Seq<Tree>, b: Seq<Tree>, i: int, h: HandlerView, st: ScopeType)
    requires
        0 <= i <= a.len(),
    ensures
        gen_scope_items(block_of(tok, a + b), i, h, st) == then_items(
            gen_scope_items(block_of(tok, a), i, h, st),
            tok,
            b,
            st,
        ),
    decreases a.len() - i,
{
    if i == a.len() {
        lemma_items_tail(tok, a, b, 0, h, st);
        assert(a.len() + 0 == a.len());
    } else {
        assert((a + b)[i] == a[i]);
        match gen_item(a[i], h, st) {
            Some((h1, false)) => {
                lemma_items_concat(tok, a, b, i + 1, h1, st);
            },
            _ => {},
        }
    }
}

/// A block's statements generate as its first part and then its second
/// part: the code of `a + b` is the code of `a` followed, from the state
/// that `a` left, by the code of `b`, unless a `return` in `a` ended the
/// block. Outside a loop body the same holds of the whole block.
pub proof fn law_block_concat(tok: NodeType, a: Seq<Tree>, b: Seq<Tree>, h: HandlerView, st: ScopeType)
    ensures
        gen_scope_items(block_of(tok, a + b), 0, h, st) == then_items(
            gen_scope_items(block_of(tok, a), 0, h, st),
            tok,
            b,
            st,
        ),
        st != ScopeType::While ==> gen_scope(block_of(tok, a + b), h, st) == match gen_scope_items(
            block_of(tok, a),
            0,
            h,
            st,
        ) {
            Some((h1, true)) => Some(h1),
            Some((h1, false)) => gen_scope(block_of(tok, b), h1, st),
            None => None,
        },
{
    lemma_items_concat(tok, a, b, 0, h, st);
}

/// A `return` ends its block: in a function's block, the statements after
/// a `return` generate nothing, and the block's code is that of the
/// statements before it followed by the return's code.
pub proof fn law_return_ends_block(
    tok: NodeType,
    a: Seq<Tree>,
    r: Tree,
    b: Seq<Tree>,
    h: HandlerView,
    ty: RhTypes,
)
    requires
        r.token is Return,
    ensures
        gen_scope_items(block_of(tok, a + seq![r] + b), 0, h, ScopeType::Function(ty)) == match gen_scope_items(
            block_of(tok, a),
            0,
            h,
            ScopeType::Function(ty),
        ) {
            Some((h1, true)) => Some((h1, true)),
            Some((h1, false)) => match gen_return(r, h1) {
                Some(h2) => Some((h2, true)),
                None => None,
            },
            None => None,
        },
{
    let st = ScopeType::Function(ty);
    assert(a + seq![r] + b == a + (seq![r] + b));
    lemma_items_concat(tok, a, seq![r] + b, 0, h, st);
    let rb = seq![r] + b;
    assert(rb[0] == r);
    match gen_scope_items(block_of(tok, a), 0, h, st) {
        Some((h1, false)) => {
            assert(gen_scope_items(block_of(tok, rb), 0, h1, st) == match gen_item(rb[0], h1, st) {
                Some((h2, true)) => Some((h2, true)),
                Some((h2, false)) => gen_scope_items(block_of(tok, rb), 1, h2, st),
                None => None,
            });
        },
        _ => {},
    }
}

/// The bytes taken by the first `n` variables of `args`.
pub open spec fn sizes_before(args: Seq<(Seq<char>, i32)>, n: int) -> int
    decreases n,
{
    if n <= 0 || args.len() == 0 {
        0
    } else {
        args[0].1 + sizes_before(args.drop_first(), n - 1)
    }
}

/// No two variables of `args` have the same name.
pub open spec fn distinct_names(args: Seq<(Seq<char>, i32)>) -> bool {
    forall|i: int, j: int| 0 <= i < j < args.len() ==> #[trigger] args[i].0 != #[trigger] args[j].0
}

proof fn lemma_add_ids_keeps(h: HandlerView, args: Seq<(Seq<char>, i32)>, k: Seq<char>)
    requires
        h.add_ids(args) is Some,
        forall|m: int| 0 <= m < args.len() ==> args[m].0 != k,
    ensures
        h.add_ids(args).unwrap().frame().ids.dom().contains(k) == h.frame().ids.dom().contains(k),
        h.frame().ids.dom().contains(k) ==> h.add_ids(args).unwrap().frame().ids[k] == h.frame().ids[k],
    decreases args.len(),
{
    if args.len() > 0 {
        let h1 = h.add_id(args[0].0, args[0].1 as int).unwrap();
        let rest = args.drop_first();
        assert forall|m: int| 0 <= m < rest.len() implies rest[m].0 != k by {
            assert(rest[m] == args[m + 1]);
        }
        lemma_add_ids_keeps(h1, rest, k);
        assert(args[0].0 != k);
    }
}

proof fn lemma_add_ids_shape(h: HandlerView, args: Seq<(Seq<char>, i32)>)
    requires
        h.add_ids(args) is Some,
    ensures
        ({
            let r = h.add_ids(args).unwrap();
            &&& r.scopes == h.scopes
            &&& r.curr_scope == h.curr_scope
            &&& r.curr_frame == h.curr_frame
            &&& r.anchors == h.anchors
            &&& r.arena.len() == h.arena.len()
            &&& forall|j: int| 0 <= j < h.arena.len() && j != h.curr_frame ==> r.arena[j] == h.arena[j]
            &&& r.frame().funcs == h.frame().funcs
            &&& r.frame().parent == h.frame().parent
            &&& r.frame().furthest == h.frame().furthest + sizes_before(args, args.len() as int)
            &&& distinct_names(args) ==> forall|i: int|
                0 <= i < args.len() ==> r.frame().ids.dom().contains(#[trigger] args[i].0) && r.frame().ids[args[i].0]
                    == -(h.frame().furthest + sizes_before(args, i))
        }),
    decreases args.len(),
{
    if args.len() > 0 {
        let h1 = h.add_id(args[0].0, args[0].1 as int).unwrap();
        let rest = args.drop_first();
        lemma_add_ids_shape(h1, rest);
        let r = h.add_ids(args).unwrap();
        assert(r == h1.add_ids(rest).unwrap());
        if distinct_names(args) {
            assert(distinct_names(rest)) by {
                assert forall|i: int, j: int| 0 <= i < j < rest.len() implies #[trigger] rest[i].0 != #[trigger] rest[j].0 by {
                    assert(rest[i] == args[i + 1] && rest[j] == args[j + 1]);
                }
            }
            assert forall|i: int| 0 <= i < args.len() implies r.frame().ids.dom().contains(#[trigger] args[i].0)
                && r.frame().ids[args[i].0] == -(h.frame().furthest + sizes_before(args, i)) by {
                if i == 0 {
                    assert forall|m: int| 0 <= m < rest.len() implies rest[m].0 != args[0].0 by {
                        assert(rest[m] == args[m + 1]);
                    }
                    lemma_add_ids_keeps(h1, rest, args[0].0);
                } else {
                    assert(rest[i - 1] == args[i]);
                }
            }
        }
    }
}

/// Registering a function records it in the current frame under the
/// label of block `scope`, and opens a frame for its body whose parent is
/// the caller's: eight bytes are reserved there and the parameters follow
/// one after another. Right after, the function is found by name. The
/// other frames, the blocks and the block being written are unchanged. (The frames are those
/// of a `Handler`, so there are fewer than `usize::MAX` of them.)
pub proof fn law_function_registered(h: HandlerView, name: Seq<char>, scope: i32, args: Seq<(Seq<char>, i32)>)
    requires
        h.arena.len() < usize::MAX,
        h.new_function(name, scope, args) is Some,
    ensures
        ({
            let r = h.new_function(name, scope, args).unwrap();
            let sig = SigView { args, label: ".L"@ + dec(scope as int) };
            &&& r.lookup_function(name) == Some(sig)
            &&& r.arena.len() == h.arena.len() + 1
            &&& r.curr_frame == h.arena.len()
            &&& r.frame().parent == Some(h.curr_frame)
            &&& r.arena[h.curr_frame as int] == (TableView { funcs: h.frame().funcs.insert(name, sig), ..h.frame() })
            &&& forall|j: int| 0 <= j < h.arena.len() && j != h.curr_frame ==> #[trigger] r.arena[j] == h.arena[j]
            &&& r.frame().furthest == 8 + sizes_before(args, args.len() as int)
            &&& distinct_names(args) ==> forall|i: int|
                0 <= i < args.len() ==> r.frame().ids.dom().contains(#[trigger] args[i].0) && r.frame().ids[args[i].0]
                    == -(8 + sizes_before(args, i))
            &&& r.scopes == h.scopes
            &&& r.curr_scope == h.curr_scope
        }),
{
    let sig = SigView { args, label: ".L"@ + dec(scope as int) };
    let h1 = h.set_frame(TableView { funcs: h.frame().funcs.insert(name, sig), ..h.frame() });
    let h2 = h1.new_stack_frame();
    let h3 = h2.grow(8).unwrap();
    lemma_add_ids_shape(h3, args);
    let r = h.new_function(name, scope, args).unwrap();
    assert(r == h3.add_ids(args).unwrap());
    assert(h1.arena.len() == h.arena.len());
    assert(h2.frame() == empty_table(Some(h.curr_frame)));
    assert(h3.frame().funcs == h2.frame().funcs);
    assert(h3.frame().parent == Some(h.curr_frame));
    assert(h3.arena[h.curr_frame as int] == h1.arena[h.curr_frame as int]);
    assert(r.arena[h.curr_frame as int] == h3.arena[h.curr_frame as int]);
    assert(!r.frame().funcs.dom().contains(name));
    assert(h3.frame().furthest == 8);
}

/// Every frame's parent comes before it.
pub open spec fn parents_first(arena: Seq<TableView>) -> bool {
    forall|j: int|
        0 <= j < arena.len() ==> match (#[trigger] arena[j]).parent {
            Some(p) => p < j,
            None => true,
        }
}

/// The first handler's single frame has no parent, and a new stack frame
/// keeps every frame's parent before it: the new frame is empty, comes
/// last, has the old current frame as its parent and becomes current, and
/// the frames before it are unchanged. (The frames are those of a
/// `Handler`, so there are at most `usize::MAX` of them.)
pub proof fn law_new_frame_parents_first(h: HandlerView)
    requires
        parents_first(h.arena),
        h.frame_ok(),
        h.arena.len() <= usize::MAX,
    ensures
        parents_first(HandlerView::initial().arena),
        parents_first(h.new_stack_frame().arena),
        h.new_stack_frame().arena.len() == h.arena.len() + 1,
        h.new_stack_frame().curr_frame == h.arena.len(),
        h.new_stack_frame().frame() == empty_table(Some(h.curr_frame)),
        forall|j: int| 0 <= j < h.arena.len() ==> #[trigger] h.new_stack_frame().arena[j] == h.arena[j],
{
    let r = h.new_stack_frame();
    assert forall|j: int| 0 <= j < r.arena.len() implies match (#[trigger] r.arena[j]).parent {
        Some(p) => p < j,
        None => true,
    } by {
        if j < h.arena.len() {
            assert(r.arena[j] == h.arena[j]);
        }
    }
    assert(HandlerView::initial().arena[0] == empty_table(None));
}

/// The code of a binary operator node `l op r`: the code of `l`, then the
/// code of `r` from the state that `l` left, then the right value popped
/// into `x10` and the left one into `x9`, combined by `op x9, x9, x10`
/// with the left operand first (`add`, `sub`, `mul`, `udiv`, `mneg`,
/// `and`, `or`, `xor`), and the result pushed.
pub proof fn law_binary_operand_order(t: Tree, h: HandlerView)
    requires
        t.children matches Some(items) && items.len() >= 2,
        t.token is Add || t.token is Sub || t.token is Mul || t.token is Div || t.token is MNeg
            || t.token is BAnd || t.token is BOr || t.token is BXor,
    ensures
        ({
            let items = t.children->Some_0;
            let m = match t.token {
                NodeType::Add => "add"@,
                NodeType::Sub => "sub"@,
                NodeType::Mul => "mul"@,
                NodeType::Div => "udiv"@,
                NodeType::MNeg => "mneg"@,
                NodeType::BAnd => "and"@,
                NodeType::BOr => "or"@,
                _ => "xor"@,
            };
            gen_expr(t, h) == match gen_expr(items[0], h) {
                Some(h1) => match gen_expr(items[1], h1) {
                    Some(h2) => then_grow(
                        then_push(
                            then_push(
                                then_grow(
                                    then_grow(h2.push("\n\n; load from stack\nldr x10, [x15], #8\nldr x9, [x15], #8"@), -8),
                                    -8,
                                ),
                                "\n"@ + m + " x9, x9, x10"@,
                            ),
                            "\nstr x9, [x15, #-8]!"@,
                        ),
                        8,
                    ),
                    None => None,
                },
                None => None,
            }
        }),
{
    reveal_strlit("add");
    reveal_strlit("sub");
    reveal_strlit("mul");
    reveal_strlit("udiv");
    reveal_strlit("mneg");
    reveal_strlit("and");
    reveal_strlit("or");
    reveal_strlit("xor");
    reveal_strlit(" x9, x9, x10");
    reveal_strlit("\n");
    reveal_strlit("\nadd x9, x9, x10");
    reveal_strlit("\nsub x9, x9, x10");
    reveal_strlit("\nmul x9, x9, x10");
    reveal_strlit("\nudiv x9, x9, x10");
    reveal_strlit("\nmneg x9, x9, x10");
    reveal_strlit("\nand x9, x9, x10");
    reveal_strlit("\nor x9, x9, x10");
    reveal_strlit("\nxor x9, x9, x10");
    let items = t.children->Some_0;
    let op = binop_text(t.token).unwrap();
    let m = match t.token {
        NodeType::Add => "add"@,
        NodeType::Sub => "sub"@,
        NodeType::Mul => "mul"@,
        NodeType::Div => "udiv"@,
        NodeType::MNeg => "mneg"@,
        NodeType::BAnd => "and"@,
        NodeType::BOr => "or"@,
        _ => "xor"@,
    };
    assert(op =~= "\n"@ + m + " x9, x9, x10"@);
}

/// A compound assignment `x op= v` to a variable: the value is computed
/// and popped into `x9`, the variable's old value loaded into `x10`, the two
/// combined by the instruction of `op` (`add` for `+=`, `sub` for `-=`,
/// `mul` for `*=`, `udiv` for `/=`, `bor` for `|=`, `and` for `&=`, `xor`
/// for `^=`) with the new value first, and the result stored back; through
/// an address the old value is loaded from, and the result stored to, the
/// address in `x13`.
pub proof fn law_compound_assignment(v: Tree, h: HandlerView, op: AssignmentOpType, rsp: Seq<char>)
    requires
        op != AssignmentOpType::Eq,
    ensures
        ({
            let m = match op {
                AssignmentOpType::AddEq => "add"@,
                AssignmentOpType::SubEq => "sub"@,
                AssignmentOpType::MulEq => "mul"@,
                AssignmentOpType::DivEq => "udiv"@,
                AssignmentOpType::BOrEq => "bor"@,
                AssignmentOpType::BAndEq => "and"@,
                _ => "xor"@,
            };
            &&& gen_assign_store(v, h, op, false, rsp) == match then_grow(then_push(gen_expr(v, h), "\nldr x9, [x15], #8"@), -8) {
                Some(h3) => then_push(
                    then_push(h3.push("\nldr x10, [x29, "@ + rsp + "]"@), "\n"@ + m + " x9, x9, x10"@),
                    "\nstr x9, [x29, "@ + rsp + "]\n"@,
                ),
                None => None,
            }
            &&& gen_assign_store(v, h, op, true, rsp) == match then_grow(then_push(gen_expr(v, h), "\nldr x9, [x15], #8"@), -8) {
                Some(h3) => then_push(
                    then_push(h3.push("\nsub x12, x29, x12\nldr x10, [x13]"@), "\n"@ + m + " x9, x9, x10"@),
                    "\nstr x9, [x13]\n"@,
                ),
                None => None,
            }
        }),
{
    reveal_strlit("add");
    reveal_strlit("sub");
    reveal_strlit("mul");
    reveal_strlit("udiv");
    reveal_strlit("bor");
    reveal_strlit("and");
    reveal_strlit("xor");
    reveal_strlit(" x9, x9, x10");
    reveal_strlit("\n");
    reveal_strlit("\nadd x9, x9, x10");
    reveal_strlit("\nsub x9, x9, x10");
    reveal_strlit("\nmul x9, x9, x10");
    reveal_strlit("\nudiv x9, x9, x10");
    reveal_strlit("\nbor x9, x9, x10");
    reveal_strlit("\nand x9, x9, x10");
    reveal_strlit("\nxor x9, x9, x10");
    let m = match op {
        AssignmentOpType::AddEq => "add"@,
        AssignmentOpType::SubEq => "sub"@,
        AssignmentOpType::MulEq => "mul"@,
        AssignmentOpType::DivEq => "udiv"@,
        AssignmentOpType::BOrEq => "bor"@,
        AssignmentOpType::BAndEq => "and"@,
        _ => "xor"@,
    };
    assert(op_text(op) =~= "\n"@ + m + " x9, x9, x10"@);
}

/// The code of a comparison `l == r` or `l != r`: the code of `l`, then of
/// `r`, then both values popped and compared, and a branch to the next
/// block taken when they are equal (`beq`, for `==`) or differ (`bne`, for
/// `!=`); that next block is opened and becomes the one being written.
/// For `==` the frame gives back the two slots; for `!=` it keeps them.
pub proof fn law_comparison_branches(t: Tree, h: HandlerView)
    requires
        t.token is EqCmp || t.token is NeqCmp,
        t.children matches Some(items) && items.len() >= 2,
    ensures
        ({
            let items = t.children->Some_0;
            let m = if t.token is EqCmp {
                "beq"@
            } else {
                "bne"@
            };
            gen_condition_expr(t, h) == match gen_condition_expr(items[0], h) {
                Some(h1) => match gen_condition_expr(items[1], h1) {
                    Some(h2) => {
                        let jumped = h2.push(
                            "\nldr x9, [x15], #8\nldr x10, [x15], #8\ncmp x9, x10\n"@ + m + " .L"@ + dec(
                                h2.curr_scope + 1,
                            ),
                        );
                        let popped = if t.token is EqCmp {
                            then_grow(then_grow(jumped, -8), -8)
                        } else {
                            jumped
                        };
                        match popped {
                            Some(h3) => Some(h3.new_scope()),
                            None => None,
                        }
                    },
                    None => None,
                },
                None => None,
            }
        }),
{
    reveal_strlit("beq");
    reveal_strlit("bne");
    reveal_strlit(" .L");
    reveal_strlit("\nldr x9, [x15], #8\nldr x10, [x15], #8\ncmp x9, x10\n");
    reveal_strlit("\nldr x9, [x15], #8\nldr x10, [x15], #8\ncmp x9, x10\nbeq .L");
    reveal_strlit("\nldr x9, [x15], #8\nldr x10, [x15], #8\ncmp x9, x10\nbne .L");
    let items = t.children->Some_0;
    if let Some(h1) = gen_condition_expr(items[0], h) {
        if let Some(h2) = gen_condition_expr(items[1], h1) {
            let d = dec(h2.curr_scope + 1);
            assert("\nldr x9, [x15], #8\nldr x10, [x15], #8\ncmp x9, x10\nbeq .L"@ + d =~= "\nldr x9, [x15], #8\nldr x10, [x15], #8\ncmp x9, x10\n"@
                + "beq"@ + " .L"@ + d);
            assert("\nldr x9, [x15], #8\nldr x10, [x15], #8\ncmp x9, x10\nbne .L"@ + d =~= "\nldr x9, [x15], #8\nldr x10, [x15], #8\ncmp x9, x10\n"@
                + "bne"@ + " .L"@ + d);
        }
    }
}

proof fn lemma_call_args_slots(t: Tree, i: int, n: int, h: HandlerView)
    requires
        0 <= i <= n,
        t.children matches Some(items) && n <= items.len(),
        forall|j: int| 0 <= j < n ==> simple_expr(#[trigger] t.children->Some_0[j]),
        gen_call_args(t, i, n, h) is Some,
    ensures
        gen_call_args(t, i, n, h).unwrap().curr_frame == h.curr_frame,
        gen_call_args(t, i, n, h).unwrap().arena.len() == h.arena.len(),
        gen_call_args(t, i, n, h).unwrap().frame().furthest == h.frame().furthest + 8 * (n - i),
        gen_call_args(t, i, n, h).unwrap().frame().ids == h.frame().ids,
    decreases n - i,
{
    if i < n {
        let items = t.children->Some_0;
        law_expr_one_slot(items[i], h);
        let h1 = gen_expr(items[i], h).unwrap();
        lemma_call_args_slots(t, i + 1, n, h1);
    }
}

/// A call evaluates one argument per parameter: for arguments built from
/// numbers, names, addresses, dereferences and binary operators, the
/// arguments' code reserves exactly `n` eight-byte slots for `n`
/// parameters, one value each, and changes no binding.
pub proof fn law_call_args_slots(t: Tree, h: HandlerView, n: int)
    requires
        0 <= n,
        t.children matches Some(items) && n <= items.len(),
        forall|j: int| 0 <= j < n ==> simple_expr(#[trigger] t.children->Some_0[j]),
        gen_call_args(t, 0, n, h) is Some,
    ensures
        gen_call_args(t, 0, n, h).unwrap().curr_frame == h.curr_frame,
        gen_call_args(t, 0, n, h).unwrap().frame().furthest == h.frame().furthest + 8 * n,
        gen_call_args(t, 0, n, h).unwrap().frame().ids == h.frame().ids,
{
    lemma_call_args_slots(t, 0, n, h);
}

proof fn lemma_call_args_count(t: Tree, i: int, n: int, h: HandlerView)
    requires
        0 <= i < n,
        gen_call_args(t, i, n, h) is Some,
    ensures
        t.children matches Some(items) && n <= items.len(),
    decreases n - i,
{
    let items = t.children->Some_0;
    if i + 1 < n {
        lemma_call_args_count(t, i + 1, n, gen_expr(items[i], h).unwrap());
    }
}

/// A call evaluates exactly one argument per parameter of the function it
/// finds: for arguments built from numbers, names, addresses, dereferences
/// and binary operators, the frame grows by eight bytes for the saved frame
/// base and by eight bytes per parameter, and no binding changes.
pub proof fn law_call_one_slot_per_param(t: Tree, h: HandlerView, name: Seq<char>)
    requires
        gen_function_call(t, h, name) is Some,
        t.children matches Some(items) && forall|j: int| 0 <= j < items.len() ==> simple_expr(#[trigger] items[j]),
    ensures
        h.lookup_function(name) is Some,
        gen_function_call(t, h, name).unwrap().curr_frame == h.curr_frame,
        gen_function_call(t, h, name).unwrap().frame().furthest == h.frame().furthest + 8 + 8 * h.lookup_function(
            name,
        ).unwrap().args.len(),
        gen_function_call(t, h, name).unwrap().frame().ids == h.frame().ids,
{
    let h1 = then_grow(h.push("\n\n; place old sfb\nstr x29, [x15, #-8]!\nmov x10, x15"@), 8).unwrap();
    assert(h1.lookup_function(name) == h.lookup_function(name));
    let n = h1.lookup_function(name).unwrap().args.len() as int;
    if n > 0 {
        lemma_call_args_count(t, 0, n, h1);
    }
    lemma_call_args_slots(t, 0, n, h1);
}

/// The code of `l || r`: the code of `l`, then the last block is dropped
/// and the block before the current one made current, and the code of `r`
/// follows from there.
pub proof fn law_or_operands(t: Tree, h: HandlerView)
    requires
        t.token is OrCmp,
        t.children matches Some(items) && items.len() >= 2,
    ensures
        gen_condition_expr(t, h) == match gen_condition_expr(t.children->Some_0[0], h) {
            Some(h1) => if h1.curr_scope == 0 {
                None
            } else {
                gen_condition_expr(
                    t.children->Some_0[1],
                    HandlerView {
                        curr_scope: (h1.curr_scope - 1) as usize,
                        scopes: if h1.scopes.len() == 0 {
                            h1.scopes
                        } else {
                            h1.scopes.take(h1.scopes.len() - 1)
                        },
                        ..h1
                    },
                )
            },
            None => None,
        },
{
    if let Some(h1) = gen_condition_expr(t.children->Some_0[0], h) {
        if h1.curr_scope != 0 {
            assert(h1.scopes.len() > 0 ==> h1.scopes.drop_last() =~= h1.scopes.take(h1.scopes.len() - 1));
        }
    }
}

/// An `if` statement: a comment, the condition (which opens the block the
/// body is written in), a comment, the body as a block of kind `If`, a
/// `ret`, and then the block before the body's is made current again.
pub proof fn law_if_parts(t: Tree, h: HandlerView)
    requires
        t.children matches Some(items) && items.len() >= 2,
    ensures
        gen_if(t, h) == match h.push("\n\n; if statement"@) {
            Some(h1) => match gen_condition_expr(t.children->Some_0[0], h1) {
                Some(h2) => match h2.push("\n; scope of if statement"@) {
                    Some(h3) => match gen_scope(t.children->Some_0[1], h3, ScopeType::If) {
                        Some(h4) => match h4.push("\nret"@) {
                            Some(h5) => h5.prev_scope(),
                            None => None,
                        },
                        None => None,
                    },
                    None => None,
                },
                None => None,
            },
            None => None,
        },
{
}

/// A `while` statement: a branch to the next block, recorded as the loop's
/// anchor; the condition in that new block; the body as a block of kind
/// `While`; and then a new block after the loop, which becomes current.
pub proof fn law_while_parts(t: Tree, h: HandlerView)
    requires
        t.children matches Some(items) && items.len() >= 2,
    ensures
        gen_while(t, h) == match h.push("\nb .L"@ + dec(h.curr_scope + 1)) {
            Some(h1) => {
                let h2 = HandlerView {
                    anchors: h1.anchors.push(h1.curr_scope),
                    scopes: h1.scopes.push(label_line(h1.scopes.len() as int)),
                    curr_scope: h1.scopes.len() as usize,
                    ..h1
                };
                match gen_condition_expr(t.children->Some_0[0], h2) {
                    Some(h3) => match gen_scope(t.children->Some_0[1], h3, ScopeType::While) {
                        Some(h4) => Some(h4.new_scope()),
                        None => None,
                    },
                    None => None,
                }
            },
            None => None,
        },
{
    if let Some(h1) = h.push("\nb .L"@ + dec(h.curr_scope + 1)) {
        assert(h1.new_break_anchor().new_scope() == HandlerView {
            anchors: h1.anchors.push(h1.curr_scope),
            scopes: h1.scopes.push(label_line(h1.scopes.len() as int)),
            curr_scope: h1.scopes.len() as usize,
            ..h1
        });
    }
}

/// How a block ends: after a `return` nothing is added; otherwise a loop
/// body ends with a branch to the block after the current one, and any
/// other block adds nothing.
pub proof fn law_block_end(t: Tree, h: HandlerView, st: ScopeType)
    requires
        t.children is Some,
    ensures
        gen_scope(t, h, st) == match gen_scope_items(t, 0, h, st) {
            Some((h1, true)) => Some(h1),
            Some((h1, false)) => if st == ScopeType::While {
                h1.push("\n; break statement\nb .L"@ + dec(h1.curr_scope + 1))
            } else {
                Some(h1)
            },
            None => None,
        },
{
}

/// Each statement is generated by the generator of its kind, and only a
/// `return` ends its block: a declaration binds its name, an assignment
/// stores, `if`, `while`, calls and function declarations generate their
/// parts, `break` branches to the next block, inline assembly is copied on
/// a line of its own, `putchar` and `assert` generate their code, a
/// `return` (only inside a function) ends the block, and any other node
/// generates nothing.
pub proof fn law_statement_kinds(c: Tree, h: HandlerView, st: ScopeType)
    ensures
        gen_item(c, h, st) == match c.token {
            NodeType::Return => if st is Function {
                match gen_return(c, h) {
                    Some(h1) => Some((h1, true)),
                    None => None,
                }
            } else {
                None
            },
            _ => {
                let done = match c.token {
                    NodeType::Declaration((name, _)) => gen_declare(c, h, name@),
                    NodeType::AssignmentOp(_) => gen_assignment(c, h),
                    NodeType::If => gen_if(c, h),
                    NodeType::While => gen_while(c, h),
                    NodeType::FunctionCall(id) => gen_function_call(c, h, id@),
                    NodeType::FunctionDecaration((id, ty)) => gen_function_declare(c, h, id@, ty),
                    NodeType::Break => match h.push("\n; break statement\nb .L"@ + dec(h.curr_scope + 1)) {
                        Some(h1) => Some(h1.new_scope()),
                        None => None,
                    },
                    NodeType::Asm(text) => h.push("\n"@ + text@),
                    NodeType::PutChar => gen_putchar(c, h),
                    NodeType::Assert => gen_assert(c, h),
                    _ => Some(h),
                };
                match done {
                    Some(h1) => Some((h1, false)),
                    None => None,
                }
            },
        },
{
}

/// An assertion: the condition's code, then an exit with status 1 (the
/// `exit` system call) in the block where a failed condition lands.
pub proof fn law_assert_exits(t: Tree, h: HandlerView)
    requires
        t.children matches Some(items) && items.len() == 1,
    ensures
        gen_assert(t, h) == match gen_condition_expr(t.children->Some_0[0], h) {
            Some(h1) => h1.push("\nmov x0, #1\nmov x8, #93\nsvc #0"@),
            None => None,
        },
{
}

/// `putchar` writes the value on top of the stack to standard output (the
/// `write` system call on file 1, one byte from the stack pointer) and then
/// gives its slot back: for a simple expression the frame ends where it
/// began and no binding changes.
pub proof fn law_putchar_balanced(t: Tree, h: HandlerView)
    requires
        t.children matches Some(items) && items.len() >= 1 && simple_expr(items[0]),
        gen_putchar(t, h) is Some,
    ensures
        gen_putchar(t, h) == then_grow(
            then_push(
                gen_expr(t.children->Some_0[0], h),
                "\n\n; putchar\nmov x0, #1 ; stdout\nmov x1, x15 ; put from TOS\nmov x2, #1 ; print 1 char\nmov x16, #4 ; write\nsvc #0x80\n; unload the TOS\nadd x15, x15, #8\n"@,
            ),
            -8,
        ),
        gen_putchar(t, h).unwrap().curr_frame == h.curr_frame,
        gen_putchar(t, h).unwrap().frame().furthest == h.frame().furthest,
        gen_putchar(t, h).unwrap().frame().ids == h.frame().ids,
{
    let items = t.children->Some_0;
    law_expr_one_slot(items[0], h);
}

/// A plain assignment `x = v` only stores: the value is computed, popped
/// into `x9` and stored into the variable's slot, with no load of the old
/// value and no combining instruction.
pub proof fn law_plain_assignment_stores(v: Tree, h: HandlerView, rsp: Seq<char>)
    ensures
        gen_assign_store(v, h, AssignmentOpType::Eq, false, rsp) == then_push(
            then_grow(then_push(gen_expr(v, h), "\nldr x9, [x15], #8"@), -8),
            "\nstr x9, [x29, "@ + rsp + "]\n"@,
        ),
{
}

/// The code of `l && r` is the code of `l` followed by the code of `r`,
/// from the state that `l` left: both operands are generated, in order.
pub proof fn law_and_both_operands(t: Tree, h: HandlerView)
    requires
        t.token is AndCmp,
        t.children matches Some(items) && items.len() >= 2,
    ensures
        gen_condition_expr(t, h) == match gen_condition_expr(t.children->Some_0[0], h) {
            Some(h1) => gen_condition_expr(t.children->Some_0[1], h1),
            None => None,
        },
{
}

/// A function declaration registers one parameter per declaration before
/// its body, whatever the declared type, in order, each of eight bytes.
pub proof fn law_function_params(t: Tree, h: HandlerView, name: Seq<char>, ty: RhTypes)
    requires
        gen_function_declare(t, h, name, ty) is Some,
        gen_function_declare(t, h, name, ty).unwrap().arena.len() < usize::MAX,
        forall|i: int| 0 <= i < t.children->Some_0.len() - 1 ==> (#[trigger] t.children->Some_0[i]).token is Declaration,
    ensures
        ({
            let items = t.children->Some_0;
            let r = gen_function_declare(t, h, name, ty).unwrap();
            &&& r.arena[h.curr_frame as int].funcs.dom().contains(name)
            &&& r.arena[h.curr_frame as int].funcs[name].args == Seq::new(
                (items.len() - 1) as nat,
                |i: int| (items[i].token->Declaration_0.0@, 8i32),
            )
        }),
{
    let items = t.children->Some_0;
    law_function_declare_frames(t, h, name, ty);
    lemma_decl_args_all(items, items.len() - 1);
}

proof fn lemma_decl_args_all(items: Seq<Tree>, n: int)
    requires
        0 <= n <= items.len(),
        forall|i: int| 0 <= i < n ==> (#[trigger] items[i]).token is Declaration,
    ensures
        decl_args(items, n) == Seq::new(n as nat, |i: int| (items[i].token->Declaration_0.0@, 8i32)),
    decreases n,
{
    if n > 0 {
        lemma_decl_args_all(items, n - 1);
        assert(decl_args(items, n) =~= Seq::new(n as nat, |i: int| (items[i].token->Declaration_0.0@, 8i32)));
    } else {
        assert(decl_args(items, n) =~= Seq::new(n as nat, |i: int| (items[i].token->Declaration_0.0@, 8i32)));
    }
}

/// An expression built from numbers, names, addresses of names,
/// dereferences and binary operators.
pub open spec fn simple_expr(t: Tree) -> bool
    decreases t,
{
    match t.token {
        NodeType::NumLiteral(_) | NodeType::Id(_) | NodeType::Adr(_) => true,
        NodeType::DeRef => match t.children {
            Some(items) => items.len() == 1 && simple_expr(items[0]),
            None => false,
        },
        NodeType::Add | NodeType::Sub | NodeType::Div | NodeType::Mul | NodeType::MNeg
        | NodeType::BAnd | NodeType::BOr | NodeType::BXor => match t.children {
            Some(items) => items.len() >= 2 && simple_expr(items[0]) && simple_expr(items[1]),
            None => false,
        },
        _ => false,
    }
}

proof fn lemma_push_frame(h: HandlerView, text: Seq<char>)
    requires
        h.push(text) is Some,
    ensures
        h.push(text).unwrap().arena == h.arena,
        h.push(text).unwrap().curr_frame == h.curr_frame,
{
}

/// An expression's code leaves exactly its value on top of the stack: for
/// a simple expression it reserves one eight-byte slot in the current
/// frame, and changes no binding.
pub proof fn law_expr_one_slot(t: Tree, h: HandlerView)
    requires
        simple_expr(t),
        gen_expr(t, h) is Some,
    ensures
        gen_expr(t, h).unwrap().curr_frame == h.curr_frame,
        gen_expr(t, h).unwrap().arena.len() == h.arena.len(),
        gen_expr(t, h).unwrap().frame().furthest == h.frame().furthest + 8,
        gen_expr(t, h).unwrap().frame().ids == h.frame().ids,
        gen_expr(t, h).unwrap().frame().funcs == h.frame().funcs,
        gen_expr(t, h).unwrap().frame().parent == h.frame().parent,
    decreases t,
{
    match t.token {
        NodeType::DeRef => {
            let items = t.children->Some_0;
            assert(gen_expr(t, h) == gen_deref(t, h));
            assert(gen_deref(t, h) == then_push(
                gen_expr(items[0], h),
                "\n\n; deref expr\nldr x9, [x15], #8\nsub x9, x9, #8\nldr x10, [x9]\nstr x10, [x15, #-8]!"@,
            ));
            law_expr_one_slot(items[0], h);
            let h1 = gen_expr(items[0], h).unwrap();
            let text = "\n\n; deref expr\nldr x9, [x15], #8\nsub x9, x9, #8\nldr x10, [x9]\nstr x10, [x15, #-8]!"@;
            lemma_push_frame(h1, text);
            assert(gen_expr(t, h).unwrap() == h1.push(text).unwrap());
        },
        NodeType::NumLiteral(_) | NodeType::Id(_) | NodeType::Adr(_) => {
        },
        _ => {
            let items = t.children->Some_0;
            law_expr_one_slot(items[0], h);
            let h1 = gen_expr(items[0], h).unwrap();
            law_expr_one_slot(items[1], h1);
            let h2 = gen_expr(items[1], h1).unwrap();
        },
    }
}

/// A declaration with a simple initial value binds the name to the slot
/// that holds the value: its offset is minus the frame's end after the
/// value was pushed.
pub proof fn law_declare_binds(t: Tree, h: HandlerView, name: Seq<char>)
    requires
        t.children matches Some(items) && items.len() >= 1 && simple_expr(items[0]),
        gen_declare(t, h, name) is Some,
    ensures
        gen_declare(t, h, name).unwrap().lookup_id(name) == Some((-(h.frame().furthest + 8)) as i32),
        gen_declare(t, h, name).unwrap().frame().furthest == h.frame().furthest + 8,
{
    let items = t.children->Some_0;
    let text = "\n\n; var dec: "@ + name + ", offset: "@ + dec(h.frame().furthest + 8) + " (wrong for arrays)"@;
    let h1 = h.push(text).unwrap();
    law_expr_one_slot(items[0], h1);
}

/// The compiled text neither starts nor ends with white space.
pub proof fn law_output_trimmed(scopes: Seq<Seq<char>>)
    requires
        fmt_scopes(scopes) is Some,
    ensures
        fmt_scopes(scopes).unwrap().len() == 0 || (!is_ws(fmt_scopes(scopes).unwrap()[0]) && !is_ws(
            fmt_scopes(scopes).unwrap().last(),
        )),
{
    law_trim_clean(fmt_scopes_upto(scopes, (scopes.len() - 1) as nat).unwrap());
}

/// Every block from the third on opens with its own label line, so a branch
/// to `.Lk` reaches block `k`. (The first two blocks hold the directives
/// and the entry code.)
pub open spec fn labels_ok(h: HandlerView) -> bool {
    forall|k: int| 2 <= k < h.scopes.len() ==> label_line(k).is_prefix_of(#[trigger] h.scopes[k])
}

broadcast proof fn lemma_push_labels(h: HandlerView, t: Seq<char>)
    ensures
        labels_ok(h) && #[trigger] h.push(t) is Some ==> labels_ok(h.push(t).unwrap()),
{
    if labels_ok(h) && h.push(t) is Some {
        let h1 = h.push(t).unwrap();
        assert forall|k: int| 2 <= k < h1.scopes.len() implies label_line(k).is_prefix_of(
            #[trigger] h1.scopes[k],
        ) by {
            assert(label_line(k).is_prefix_of(h.scopes[k]));
            if k == h.curr_scope {
                let n = label_line(k).len() as int;
                assert(h1.scopes[k].subrange(0, n) =~= h.scopes[k].subrange(0, n));
            }
        }
    }
}

broadcast proof fn lemma_new_scope_labels(h: HandlerView)
    ensures
        labels_ok(h) ==> labels_ok(#[trigger] h.new_scope()),
{
    if labels_ok(h) {
        let h1 = h.new_scope();
        assert forall|k: int| 2 <= k < h1.scopes.len() implies label_line(k).is_prefix_of(
            #[trigger] h1.scopes[k],
        ) by {
            if k < h.scopes.len() {
                assert(label_line(k).is_prefix_of(h.scopes[k]));
            } else {
                assert(h1.scopes[k].subrange(0, label_line(k).len() as int) =~= label_line(k));
            }
        }
    }
}

proof fn lemma_add_ids_scopes(h: HandlerView, args: Seq<(Seq<char>, i32)>)
    ensures
        h.add_ids(args) is Some ==> h.add_ids(args).unwrap().scopes == h.scopes
            && h.add_ids(args).unwrap().curr_scope == h.curr_scope,
    decreases args.len(),
{
    if args.len() > 0 {
        if let Some(h1) = h.add_id(args[0].0, args[0].1 as int) {
            lemma_add_ids_scopes(h1, args.drop_first());
        }
    }
}

proof fn lemma_new_function_scopes(h: HandlerView, name: Seq<char>, scope: i32, args: Seq<(Seq<char>, i32)>)
    ensures
        h.new_function(name, scope, args) is Some ==> h.new_function(name, scope, args).unwrap().scopes
            == h.scopes && h.new_function(name, scope, args).unwrap().curr_scope == h.curr_scope,
{
    if h.frame_ok() {
        let sig = SigView { args, label: ".L"@ + dec(scope as int) };
        let h1 = h.set_frame(TableView { funcs: h.frame().funcs.insert(name, sig), ..h.frame() });
        if let Some(h3) = h1.new_stack_frame().grow(8) {
            lemma_add_ids_scopes(h3, args);
        }
    }
}

proof fn lemma_labels_expr(t: Tree, h: HandlerView)
    requires
        labels_ok(h),
        gen_expr(t, h) is Some,
    ensures
        labels_ok(gen_expr(t, h).unwrap()),
    decreases t, 2int, 0int,
{
    broadcast use lemma_push_labels;

    match t.token {
        NodeType::NumLiteral(_) | NodeType::Id(_) | NodeType::Adr(_) => {},
        NodeType::FunctionCall(name) => {
            lemma_labels_function_call(t, h, name@);
        },
        NodeType::DeRef => {
            assert(gen_expr(t, h) == gen_deref(t, h));
            lemma_labels_deref(t, h);
        },
        NodeType::Array => {
            let h1 = h.push("\n; new array\nmov x11, x15 ; anchor ptr"@).unwrap();
            lemma_labels_expr_items(t, 0, h1);
        },
        _ => {
            let items = t.children->Some_0;
            lemma_labels_expr(items[0], h);
            let h1 = gen_expr(items[0], h).unwrap();
            lemma_labels_expr(items[1], h1);
        },
    }
}

proof fn lemma_labels_expr_items(t: Tree, i: int, h: HandlerView)
    requires
        labels_ok(h),
        gen_expr_items(t, i, h) is Some,
    ensures
        labels_ok(gen_expr_items(t, i, h).unwrap()),
    decreases t, 1int, (match t.children { Some(items) => items.len() - i, None => 0 }),
{
    broadcast use lemma_push_labels;

    if let Some(items) = t.children {
        if 0 <= i < items.len() {
            lemma_labels_expr(items[i], h);
            let h2 = gen_expr(items[i], h).unwrap().push("\n"@).unwrap();
            lemma_labels_expr_items(t, i + 1, h2);
        }
    }
}

proof fn lemma_labels_function_call(t: Tree, h: HandlerView, name: Seq<char>)
    requires
        labels_ok(h),
        gen_function_call(t, h, name) is Some,
    ensures
        labels_ok(gen_function_call(t, h, name).unwrap()),
    decreases t, 1int, 0int,
{
    broadcast use lemma_push_labels;

    let h1 = then_grow(h.push("\n\n; place old sfb\nstr x29, [x15, #-8]!\nmov x10, x15"@), 8).unwrap();
    let sig = h1.lookup_function(name).unwrap();
    lemma_labels_call_args(t, 0, sig.args.len() as int, h1);
}

proof fn lemma_labels_call_args(t: Tree, i: int, n: int, h: HandlerView)
    requires
        labels_ok(h),
        gen_call_args(t, i, n, h) is Some,
    ensures
        labels_ok(gen_call_args(t, i, n, h).unwrap()),
    decreases t, 0int, n - i,
{
    if i < n {
        let items = t.children->Some_0;
        lemma_labels_expr(items[i], h);
        lemma_labels_call_args(t, i + 1, n, gen_expr(items[i], h).unwrap());
    }
}

proof fn lemma_labels_deref(t: Tree, h: HandlerView)
    requires
        labels_ok(h),
        gen_deref(t, h) is Some,
    ensures
        labels_ok(gen_deref(t, h).unwrap()),
    decreases t, 1int, 0int,
{
    broadcast use lemma_push_labels;

    lemma_labels_expr(t.children->Some_0[0], h);
}

proof fn lemma_labels_condition(t: Tree, h: HandlerView)
    requires
        labels_ok(h),
        gen_condition_expr(t, h) is Some,
    ensures
        labels_ok(gen_condition_expr(t, h).unwrap()),
    decreases t, 3int, 0int,
{
    broadcast use lemma_push_labels, lemma_new_scope_labels;

    let items = match t.children {
        Some(v) => v,
        None => Seq::empty(),
    };
    match t.token {
        NodeType::AndCmp | NodeType::NeqCmp | NodeType::EqCmp => {
            lemma_labels_condition(items[0], h);
            let h1 = gen_condition_expr(items[0], h).unwrap();
            lemma_labels_condition(items[1], h1);
        },
        NodeType::OrCmp => {
            lemma_labels_condition(items[0], h);
            let h1 = gen_condition_expr(items[0], h).unwrap();
            let h2 = HandlerView {
                curr_scope: (h1.curr_scope - 1) as usize,
                scopes: if h1.scopes.len() == 0 {
                    h1.scopes
                } else {
                    h1.scopes.drop_last()
                },
                ..h1
            };
            assert(labels_ok(h2)) by {
                assert forall|k: int| 2 <= k < h2.scopes.len() implies label_line(k).is_prefix_of(
                    #[trigger] h2.scopes[k],
                ) by {
                    assert(h2.scopes[k] == h1.scopes[k]);
                }
            }
            lemma_labels_condition(items[1], h2);
        },
        _ => {
            lemma_labels_expr(t, h);
        },
    }
}

proof fn lemma_labels_declare(t: Tree, h: HandlerView, name: Seq<char>)
    requires
        labels_ok(h),
        gen_declare(t, h, name) is Some,
    ensures
        labels_ok(gen_declare(t, h, name).unwrap()),
    decreases t, 6int, 0int,
{
    broadcast use lemma_push_labels;

    let h1 = h.push(
        "\n\n; var dec: "@ + name + ", offset: "@ + dec(h.frame().furthest + 8) + " (wrong for arrays)"@,
    ).unwrap();
    lemma_labels_expr(t.children->Some_0[0], h1);
}

proof fn lemma_labels_assign_store(v: Tree, h: HandlerView, op: AssignmentOpType, deref: bool, rsp: Seq<char>)
    requires
        labels_ok(h),
        gen_assign_store(v, h, op, deref, rsp) is Some,
    ensures
        labels_ok(gen_assign_store(v, h, op, deref, rsp).unwrap()),
    decreases v, 3int, 0int,
{
    broadcast use lemma_push_labels;

    lemma_labels_expr(v, h);
}

proof fn lemma_labels_assignment(t: Tree, h: HandlerView)
    requires
        labels_ok(h),
        gen_assignment(t, h) is Some,
    ensures
        labels_ok(gen_assignment(t, h).unwrap()),
    decreases t, 6int, 0int,
{
    broadcast use lemma_push_labels;

    let h1 = h.push("\n; variable assignment"@).unwrap();
    let items = t.children->Some_0;
    let op = t.token->AssignmentOp_0;
    match items[0].token {
        NodeType::Id(name) => {
            let pos = h1.lookup_id(name@).unwrap();
            lemma_labels_assign_store(items[1], h1, op, false, "#"@ + dec(pos as int));
        },
        _ => {
            let target = items[0].children->Some_0;
            let h2 = h1.push("\n\n; deref assignment"@).unwrap();
            lemma_labels_expr(target[0], h2);
            let h4 = then_push(gen_expr(target[0], h2), "\n\n; str offset to assign to\nmov x12, x15"@).unwrap();
            lemma_labels_assign_store(items[1], h4, op, true, "x12"@);
        },
    }
}

proof fn lemma_labels_function_declare(t: Tree, h: HandlerView, name: Seq<char>, ty: RhTypes)
    requires
        labels_ok(h),
        gen_function_declare(t, h, name, ty) is Some,
    ensures
        labels_ok(gen_function_declare(t, h, name, ty).unwrap()),
    decreases t, 6int, 0int,
{
    broadcast use lemma_push_labels, lemma_new_scope_labels;

    let items = t.children->Some_0;
    let h2 = h.new_scope().push("\n; function declaration"@).unwrap();
    let args = decl_args(items, items.len() - 1);
    lemma_new_function_scopes(h2, name, h2.curr_scope as i32, args);
    let h3 = h2.new_function(name, h2.curr_scope as i32, args).unwrap();
    let body = items[items.len() - 1];
    if body.token is Scope {
        lemma_labels_scope(body, h3, ScopeType::Function(ty));
    }
}

proof fn lemma_labels_if(t: Tree, h: HandlerView)
    requires
        labels_ok(h),
        gen_if(t, h) is Some,
    ensures
        labels_ok(gen_if(t, h).unwrap()),
    decreases t, 6int, 0int,
{
    broadcast use lemma_push_labels;

    let items = t.children->Some_0;
    let h1 = h.push("\n\n; if statement"@).unwrap();
    lemma_labels_condition(items[0], h1);
    let h3 = then_push(gen_condition_expr(items[0], h1), "\n; scope of if statement"@).unwrap();
    lemma_labels_scope(items[1], h3, ScopeType::If);
}

proof fn lemma_labels_while(t: Tree, h: HandlerView)
    requires
        labels_ok(h),
        gen_while(t, h) is Some,
    ensures
        labels_ok(gen_while(t, h).unwrap()),
    decreases t, 6int, 0int,
{
    broadcast use lemma_push_labels, lemma_new_scope_labels;

    let items = t.children->Some_0;
    let h1 = h.push("\nb .L"@ + dec(h.curr_scope + 1)).unwrap();
    let h2 = h1.new_break_anchor().new_scope();
    assert(labels_ok(h1.new_break_anchor()));
    lemma_labels_condition(items[0], h2);
    let h3 = gen_condition_expr(items[0], h2).unwrap();
    lemma_labels_scope(items[1], h3, ScopeType::While);
}

proof fn lemma_labels_assert(t: Tree, h: HandlerView)
    requires
        labels_ok(h),
        gen_assert(t, h) is Some,
    ensures
        labels_ok(gen_assert(t, h).unwrap()),
    decreases t, 6int, 0int,
{
    broadcast use lemma_push_labels;

    lemma_labels_condition(t.children->Some_0[0], h);
}

proof fn lemma_labels_return(t: Tree, h: HandlerView)
    requires
        labels_ok(h),
        gen_return(t, h) is Some,
    ensures
        labels_ok(gen_return(t, h).unwrap()),
    decreases t, 6int, 0int,
{
    broadcast use lemma_push_labels;

    let h1 = h.push("\n\n; evaluate return statement and place on stack"@).unwrap();
    lemma_labels_expr(t.children->Some_0[0], h1);
}

proof fn lemma_labels_putchar(t: Tree, h: HandlerView)
    requires
        labels_ok(h),
        gen_putchar(t, h) is Some,
    ensures
        labels_ok(gen_putchar(t, h).unwrap()),
    decreases t, 6int, 0int,
{
    broadcast use lemma_push_labels;

    lemma_labels_expr(t.children->Some_0[0], h);
}

proof fn lemma_labels_item(c: Tree, h: HandlerView, st: ScopeType)
    requires
        labels_ok(h),
        gen_item(c, h, st) is Some,
    ensures
        labels_ok(gen_item(c, h, st).unwrap().0),
    decreases c, 7int, 0int,
{
    broadcast use lemma_push_labels, lemma_new_scope_labels;

    match c.token {
        NodeType::Declaration((name, _)) => lemma_labels_declare(c, h, name@),
        NodeType::AssignmentOp(_) => lemma_labels_assignment(c, h),
        NodeType::If => lemma_labels_if(c, h),
        NodeType::While => lemma_labels_while(c, h),
        NodeType::FunctionCall(id) => lemma_labels_function_call(c, h, id@),
        NodeType::FunctionDecaration((id, ty)) => lemma_labels_function_declare(c, h, id@, ty),
        NodeType::PutChar => lemma_labels_putchar(c, h),
        NodeType::Assert => lemma_labels_assert(c, h),
        NodeType::Return => lemma_labels_return(c, h),
        _ => {},
    }
}

proof fn lemma_labels_scope_items(t: Tree, i: int, h: HandlerView, st: ScopeType)
    requires
        labels_ok(h),
        gen_scope_items(t, i, h, st) is Some,
    ensures
        labels_ok(gen_scope_items(t, i, h, st).unwrap().0),
    decreases t, 4int, (match t.children { Some(items) => items.len() - i, None => 0 }),
{
    if let Some(items) = t.children {
        if 0 <= i < items.len() {
            lemma_labels_item(items[i], h, st);
            let (h1, done) = gen_item(items[i], h, st).unwrap();
            if !done {
                lemma_labels_scope_items(t, i + 1, h1, st);
            }
        }
    }
}

proof fn lemma_labels_scope(t: Tree, h: HandlerView, st: ScopeType)
    requires
        labels_ok(h),
        gen_scope(t, h, st) is Some,
    ensures
        labels_ok(gen_scope(t, h, st).unwrap()),
    decreases t, 5int, 0int,
{
    broadcast use lemma_push_labels;

    lemma_labels_scope_items(t, 0, h, st);
}

/// The frames of `base` other than frame `cur` are unchanged in `h`, every
/// frame of `base` keeps its parent, no frame was removed, and `cur` is the
/// current frame.
pub open spec fn frames_kept(h: HandlerView, base: Seq<TableView>, cur: usize) -> bool {
    &&& h.curr_frame == cur
    &&& base.len() <= h.arena.len()
    &&& forall|j: int| 0 <= j < base.len() && j != cur ==> #[trigger] h.arena[j] == base[j]
    &&& forall|j: int| 0 <= j < base.len() ==> (#[trigger] h.arena[j]).parent == base[j].parent
}

broadcast proof fn lemma_grow_frames(h: HandlerView, size: int, base: Seq<TableView>, cur: usize)
    ensures
        #[trigger] frames_kept(h, base, cur) && #[trigger] h.grow(size) is Some ==> frames_kept(
            h.grow(size).unwrap(),
            base,
            cur,
        ),
{
    if frames_kept(h, base, cur) && h.grow(size) is Some {
        let r = h.grow(size).unwrap();
        assert forall|j: int| 0 <= j < base.len() && j != cur implies #[trigger] r.arena[j] == base[j] by {
            assert(r.arena[j] == h.arena[j]);
        }
        assert forall|j: int| 0 <= j < base.len() implies (#[trigger] r.arena[j]).parent == base[j].parent by {
            assert(r.arena[j].parent == h.arena[j].parent);
        }
    }
}

broadcast proof fn lemma_add_id_frames(h: HandlerView, id: Seq<char>, size: int, base: Seq<TableView>, cur: usize)
    ensures
        #[trigger] frames_kept(h, base, cur) && #[trigger] h.add_id(id, size) is Some ==> frames_kept(
            h.add_id(id, size).unwrap(),
            base,
            cur,
        ),
{
    if frames_kept(h, base, cur) && h.add_id(id, size) is Some {
        let r = h.add_id(id, size).unwrap();
        assert forall|j: int| 0 <= j < base.len() && j != cur implies #[trigger] r.arena[j] == base[j] by {
            assert(r.arena[j] == h.arena[j]);
        }
        assert forall|j: int| 0 <= j < base.len() implies (#[trigger] r.arena[j]).parent == base[j].parent by {
            assert(r.arena[j].parent == h.arena[j].parent);
        }
    }
}

proof fn lemma_frames_expr(t: Tree, h: HandlerView, base: Seq<TableView>, cur: usize)
    requires
        frames_kept(h, base, cur),
        gen_expr(t, h) is Some,
    ensures
        frames_kept(gen_expr(t, h).unwrap(), base, cur),
    decreases t, 2int, 0int,
{
    broadcast use lemma_grow_frames, lemma_add_id_frames;

    match t.token {
        NodeType::NumLiteral(_) | NodeType::Id(_) | NodeType::Adr(_) => {},
        NodeType::FunctionCall(name) => {
            lemma_frames_function_call(t, h, name@, base, cur);
        },
        NodeType::DeRef => {
            assert(gen_expr(t, h) == gen_deref(t, h));
            lemma_frames_deref(t, h, base, cur);
        },
        NodeType::Array => {
            let h1 = h.push("\n; new array\nmov x11, x15 ; anchor ptr"@).unwrap();
            lemma_frames_expr_items(t, 0, h1, base, cur);
        },
        _ => {
            let items = t.children->Some_0;
            lemma_frames_expr(items[0], h, base, cur);
            let h1 = gen_expr(items[0], h).unwrap();
            lemma_frames_expr(items[1], h1, base, cur);
        },
    }
}

proof fn lemma_frames_expr_items(t: Tree, i: int, h: HandlerView, base: Seq<TableView>, cur: usize)
    requires
        frames_kept(h, base, cur),
        gen_expr_items(t, i, h) is Some,
    ensures
        frames_kept(gen_expr_items(t, i, h).unwrap(), base, cur),
    decreases t, 1int, (match t.children { Some(items) => items.len() - i, None => 0 }),
{
    broadcast use lemma_grow_frames, lemma_add_id_frames;

    if let Some(items) = t.children {
        if 0 <= i < items.len() {
            lemma_frames_expr(items[i], h, base, cur);
            let h2 = gen_expr(items[i], h).unwrap().push("\n"@).unwrap();
            lemma_frames_expr_items(t, i + 1, h2, base, cur);
        }
    }
}

proof fn lemma_frames_function_call(t: Tree, h: HandlerView, name: Seq<char>, base: Seq<TableView>, cur: usize)
    requires
        frames_kept(h, base, cur),
        gen_function_call(t, h, name) is Some,
    ensures
        frames_kept(gen_function_call(t, h, name).unwrap(), base, cur),
    decreases t, 1int, 0int,
{
    broadcast use lemma_grow_frames, lemma_add_id_frames;

    let h1 = then_grow(h.push("\n\n; place old sfb\nstr x29, [x15, #-8]!\nmov x10, x15"@), 8).unwrap();
    let sig = h1.lookup_function(name).unwrap();
    lemma_frames_call_args(t, 0, sig.args.len() as int, h1, base, cur);
}

proof fn lemma_frames_call_args(t: Tree, i: int, n: int, h: HandlerView, base: Seq<TableView>, cur: usize)
    requires
        frames_kept(h, base, cur),
        gen_call_args(t, i, n, h) is Some,
    ensures
        frames_kept(gen_call_args(t, i, n, h).unwrap(), base, cur),
    decreases t, 0int, n - i,
{
    if i < n {
        let items = t.children->Some_0;
        lemma_frames_expr(items[i], h, base, cur);
        lemma_frames_call_args(t, i + 1, n, gen_expr(items[i], h).unwrap(), base, cur);
    }
}

proof fn lemma_frames_deref(t: Tree, h: HandlerView, base: Seq<TableView>, cur: usize)
    requires
        frames_kept(h, base, cur),
        gen_deref(t, h) is Some,
    ensures
        frames_kept(gen_deref(t, h).unwrap(), base, cur),
    decreases t, 1int, 0int,
{
    broadcast use lemma_grow_frames, lemma_add_id_frames;

    lemma_frames_expr(t.children->Some_0[0], h, base, cur);
}

proof fn lemma_frames_condition(t: Tree, h: HandlerView, base: Seq<TableView>, cur: usize)
    requires
        frames_kept(h, base, cur),
        gen_condition_expr(t, h) is Some,
    ensures
        frames_kept(gen_condition_expr(t, h).unwrap(), base, cur),
    decreases t, 3int, 0int,
{
    broadcast use lemma_grow_frames, lemma_add_id_frames;

    let items = match t.children {
        Some(v) => v,
        None => Seq::empty(),
    };
    match t.token {
        NodeType::AndCmp | NodeType::NeqCmp | NodeType::EqCmp => {
            lemma_frames_condition(items[0], h, base, cur);
            let h1 = gen_condition_expr(items[0], h).unwrap();
            lemma_frames_condition(items[1], h1, base, cur);
        },
        NodeType::OrCmp => {
            lemma_frames_condition(items[0], h, base, cur);
            let h1 = gen_condition_expr(items[0], h).unwrap();
            let h2 = HandlerView {
                curr_scope: (h1.curr_scope - 1) as usize,
                scopes: if h1.scopes.len() == 0 {
                    h1.scopes
                } else {
                    h1.scopes.drop_last()
                },
                ..h1
            };
            lemma_frames_condition(items[1], h2, base, cur);
        },
        _ => {
            lemma_frames_expr(t, h, base, cur);
        },
    }
}

proof fn lemma_frames_declare(t: Tree, h: HandlerView, name: Seq<char>, base: Seq<TableView>, cur: usize)
    requires
        frames_kept(h, base, cur),
        gen_declare(t, h, name) is Some,
    ensures
        frames_kept(gen_declare(t, h, name).unwrap(), base, cur),
    decreases t, 6int, 0int,
{
    broadcast use lemma_grow_frames, lemma_add_id_frames;

    let h1 = h.push(
        "\n\n; var dec: "@ + name + ", offset: "@ + dec(h.frame().furthest + 8) + " (wrong for arrays)"@,
    ).unwrap();
    lemma_frames_expr(t.children->Some_0[0], h1, base, cur);
}

proof fn lemma_frames_assign_store(v: Tree, h: HandlerView, op: AssignmentOpType, deref: bool, rsp: Seq<char>, base: Seq<TableView>, cur: usize)
    requires
        frames_kept(h, base, cur),
        gen_assign_store(v, h, op, deref, rsp) is Some,
    ensures
        frames_kept(gen_assign_store(v, h, op, deref, rsp).unwrap(), base, cur),
    decreases v, 3int, 0int,
{
    broadcast use lemma_grow_frames, lemma_add_id_frames;

    lemma_frames_expr(v, h, base, cur);
}

proof fn lemma_frames_assignment(t: Tree, h: HandlerView, base: Seq<TableView>, cur: usize)
    requires
        frames_kept(h, base, cur),
        gen_assignment(t, h) is Some,
    ensures
        frames_kept(gen_assignment(t, h).unwrap(), base, cur),
    decreases t, 6int, 0int,
{
    broadcast use lemma_grow_frames, lemma_add_id_frames;

    let h1 = h.push("\n; variable assignment"@).unwrap();
    let items = t.children->Some_0;
    let op = t.token->AssignmentOp_0;
    match items[0].token {
        NodeType::Id(name) => {
            let pos = h1.lookup_id(name@).unwrap();
            lemma_frames_assign_store(items[1], h1, op, false, "#"@ + dec(pos as int), base, cur);
        },
        _ => {
            let target = items[0].children->Some_0;
            let h2 = h1.push("\n\n; deref assignment"@).unwrap();
            lemma_frames_expr(target[0], h2, base, cur);
            let h4 = then_push(gen_expr(target[0], h2), "\n\n; str offset to assign to\nmov x12, x15"@).unwrap();
            lemma_frames_assign_store(items[1], h4, op, true, "x12"@, base, cur);
        },
    }
}

proof fn lemma_frames_function_declare(t: Tree, h: HandlerView, name: Seq<char>, ty: RhTypes, base: Seq<TableView>, cur: usize)
    requires
        frames_kept(h, base, cur),
        gen_function_declare(t, h, name, ty) is Some,
        gen_function_declare(t, h, name, ty).unwrap().arena.len() < usize::MAX,
    ensures
        frames_kept(gen_function_declare(t, h, name, ty).unwrap(), base, cur),
    decreases t, 6int, 0int,
{
    let items = t.children->Some_0;
    let h2 = h.new_scope().push("\n; function declaration"@).unwrap();
    let args = decl_args(items, items.len() - 1);
    let h3 = h2.new_function(name, h2.curr_scope as i32, args).unwrap();
    let body = items[items.len() - 1];
    let r = gen_function_declare(t, h, name, ty).unwrap();
    if body.token is Scope {
        lemma_frames_scope(body, h3, ScopeType::Function(ty), h3.arena, h3.curr_frame);
    }
    let h4 = if body.token is Scope {
        gen_scope(body, h3, ScopeType::Function(ty)).unwrap()
    } else {
        h3
    };
    assert(r.arena == h4.arena);
    assert(h3.arena.len() == h2.arena.len() + 1) by {
        let sig = SigView { args, label: ".L"@ + dec((h2.curr_scope as i32) as int) };
        let g1 = h2.set_frame(TableView { funcs: h2.frame().funcs.insert(name, sig), ..h2.frame() });
        let g3 = g1.new_stack_frame().grow(8).unwrap();
        lemma_add_ids_shape(g3, args);
    }
    law_function_registered(h2, name, h2.curr_scope as i32, args);
    assert forall|j: int| 0 <= j < base.len() && j != cur implies #[trigger] r.arena[j] == base[j] by {
        assert(r.arena[j] == h3.arena[j]);
        assert(h3.arena[j] == h2.arena[j]);
    }
    assert forall|j: int| 0 <= j < base.len() implies (#[trigger] r.arena[j]).parent == base[j].parent by {
        assert(r.arena[j] == h3.arena[j]);
    }
}

proof fn lemma_frames_if(t: Tree, h: HandlerView, base: Seq<TableView>, cur: usize)
    requires
        frames_kept(h, base, cur),
        gen_if(t, h) is Some,
        gen_if(t, h).unwrap().arena.len() < usize::MAX,
    ensures
        frames_kept(gen_if(t, h).unwrap(), base, cur),
    decreases t, 6int, 0int,
{
    broadcast use lemma_grow_frames, lemma_add_id_frames;

    let items = t.children->Some_0;
    let h1 = h.push("\n\n; if statement"@).unwrap();
    lemma_frames_condition(items[0], h1, base, cur);
    let h3 = then_push(gen_condition_expr(items[0], h1), "\n; scope of if statement"@).unwrap();
    lemma_frames_scope(items[1], h3, ScopeType::If, base, cur);
}

proof fn lemma_frames_while(t: Tree, h: HandlerView, base: Seq<TableView>, cur: usize)
    requires
        frames_kept(h, base, cur),
        gen_while(t, h) is Some,
        gen_while(t, h).unwrap().arena.len() < usize::MAX,
    ensures
        frames_kept(gen_while(t, h).unwrap(), base, cur),
    decreases t, 6int, 0int,
{
    broadcast use lemma_grow_frames, lemma_add_id_frames;

    let items = t.children->Some_0;
    let h1 = h.push("\nb .L"@ + dec(h.curr_scope + 1)).unwrap();
    let h2 = h1.new_break_anchor().new_scope();
    assert(frames_kept(h1.new_break_anchor(), base, cur));
    lemma_frames_condition(items[0], h2, base, cur);
    let h3 = gen_condition_expr(items[0], h2).unwrap();
    lemma_frames_scope(items[1], h3, ScopeType::While, base, cur);
}

proof fn lemma_frames_assert(t: Tree, h: HandlerView, base: Seq<TableView>, cur: usize)
    requires
        frames_kept(h, base, cur),
        gen_assert(t, h) is Some,
    ensures
        frames_kept(gen_assert(t, h).unwrap(), base, cur),
    decreases t, 6int, 0int,
{
    broadcast use lemma_grow_frames, lemma_add_id_frames;

    lemma_frames_condition(t.children->Some_0[0], h, base, cur);
}

proof fn lemma_frames_return(t: Tree, h: HandlerView, base: Seq<TableView>, cur: usize)
    requires
        frames_kept(h, base, cur),
        gen_return(t, h) is Some,
    ensures
        frames_kept(gen_return(t, h).unwrap(), base, cur),
    decreases t, 6int, 0int,
{
    broadcast use lemma_grow_frames, lemma_add_id_frames;

    let h1 = h.push("\n\n; evaluate return statement and place on stack"@).unwrap();
    lemma_frames_expr(t.children->Some_0[0], h1, base, cur);
}

proof fn lemma_frames_putchar(t: Tree, h: HandlerView, base: Seq<TableView>, cur: usize)
    requires
        frames_kept(h, base, cur),
        gen_putchar(t, h) is Some,
    ensures
        frames_kept(gen_putchar(t, h).unwrap(), base, cur),
    decreases t, 6int, 0int,
{
    broadcast use lemma_grow_frames, lemma_add_id_frames;

    lemma_frames_expr(t.children->Some_0[0], h, base, cur);
}

proof fn lemma_frames_item(c: Tree, h: HandlerView, st: ScopeType, base: Seq<TableView>, cur: usize)
    requires
        frames_kept(h, base, cur),
        gen_item(c, h, st) is Some,
        gen_item(c, h, st).unwrap().0.arena.len() < usize::MAX,
    ensures
        frames_kept(gen_item(c, h, st).unwrap().0, base, cur),
    decreases c, 7int, 0int,
{
    broadcast use lemma_grow_frames, lemma_add_id_frames;

    match c.token {
        NodeType::Declaration((name, _)) => lemma_frames_declare(c, h, name@, base, cur),
        NodeType::AssignmentOp(_) => lemma_frames_assignment(c, h, base, cur),
        NodeType::If => lemma_frames_if(c, h, base, cur),
        NodeType::While => lemma_frames_while(c, h, base, cur),
        NodeType::FunctionCall(id) => lemma_frames_function_call(c, h, id@, base, cur),
        NodeType::FunctionDecaration((id, ty)) => lemma_frames_function_declare(c, h, id@, ty, base, cur),
        NodeType::PutChar => lemma_frames_putchar(c, h, base, cur),
        NodeType::Assert => lemma_frames_assert(c, h, base, cur),
        NodeType::Return => lemma_frames_return(c, h, base, cur),
        _ => {},
    }
}

proof fn lemma_frames_scope_items(t: Tree, i: int, h: HandlerView, st: ScopeType, base: Seq<TableView>, cur: usize)
    requires
        frames_kept(h, base, cur),
        gen_scope_items(t, i, h, st) is Some,
        gen_scope_items(t, i, h, st).unwrap().0.arena.len() < usize::MAX,
    ensures
        frames_kept(gen_scope_items(t, i, h, st).unwrap().0, base, cur),
    decreases t, 4int, (match t.children { Some(items) => items.len() - i, None => 0 }),
{
    if let Some(items) = t.children {
        if 0 <= i < items.len() {
            let (h1, done) = gen_item(items[i], h, st).unwrap();
            if !done {
                lemma_frames_scope_items(t, i + 1, h1, st, h1.arena, h1.curr_frame);
            }
            lemma_frames_item(items[i], h, st, base, cur);
            if !done {
                lemma_frames_scope_items(t, i + 1, h1, st, base, cur);
            }
        }
    }
}

proof fn lemma_frames_scope(t: Tree, h: HandlerView, st: ScopeType, base: Seq<TableView>, cur: usize)
    requires
        frames_kept(h, base, cur),
        gen_scope(t, h, st) is Some,
        gen_scope(t, h, st).unwrap().arena.len() < usize::MAX,
    ensures
        frames_kept(gen_scope(t, h, st).unwrap(), base, cur),
    decreases t, 5int, 0int,
{
    broadcast use lemma_grow_frames, lemma_add_id_frames;

    lemma_frames_scope_items(t, 0, h, st, base, cur);
}

/// What a function declaration leaves in the caller's state: the caller's
/// block and frame are current again, the function is registered in the
/// caller's frame under the label of the new block `n` (the number of
/// blocks before it), with one eight-byte parameter per declaration before
/// the body, the body's frame has the caller's as parent, and every other
/// frame that existed before is unchanged. (The frames are those of a
/// `Handler`, so there are fewer than `usize::MAX` of them.)
pub proof fn law_function_declare_frames(t: Tree, h: HandlerView, name: Seq<char>, ty: RhTypes)
    requires
        gen_function_declare(t, h, name, ty) is Some,
        gen_function_declare(t, h, name, ty).unwrap().arena.len() < usize::MAX,
    ensures
        ({
            let r = gen_function_declare(t, h, name, ty).unwrap();
            let items = t.children->Some_0;
            let sig = SigView {
                args: decl_args(items, items.len() - 1),
                label: ".L"@ + dec(((h.scopes.len() as usize) as i32) as int),
            };
            &&& r.curr_scope == h.curr_scope
            &&& r.curr_frame == h.curr_frame
            &&& r.arena.len() > h.arena.len()
            &&& r.arena[h.curr_frame as int] == (TableView { funcs: h.frame().funcs.insert(name, sig), ..h.frame() })
            &&& r.arena[h.arena.len() as int].parent == Some(h.curr_frame)
            &&& forall|j: int| 0 <= j < h.arena.len() && j != h.curr_frame ==> #[trigger] r.arena[j] == h.arena[j]
        }),
{
    let items = t.children->Some_0;
    let h2 = h.new_scope().push("\n; function declaration"@).unwrap();
    let args = decl_args(items, items.len() - 1);
    let h3 = h2.new_function(name, h2.curr_scope as i32, args).unwrap();
    let body = items[items.len() - 1];
    let r = gen_function_declare(t, h, name, ty).unwrap();
    lemma_frames_function_declare(t, h, name, ty, h.arena, h.curr_frame);
    if body.token is Scope {
        lemma_frames_scope(body, h3, ScopeType::Function(ty), h3.arena, h3.curr_frame);
    }
    assert(h3.arena.len() == h2.arena.len() + 1) by {
        let sig = SigView { args, label: ".L"@ + dec((h2.curr_scope as i32) as int) };
        let g1 = h2.set_frame(TableView { funcs: h2.frame().funcs.insert(name, sig), ..h2.frame() });
        let g3 = g1.new_stack_frame().grow(8).unwrap();
        lemma_add_ids_shape(g3, args);
    }
    law_function_registered(h2, name, h2.curr_scope as i32, args);
    assert(r.arena[h.curr_frame as int] == h3.arena[h.curr_frame as int]);
    assert(r.arena[h.arena.len() as int].parent == h3.arena[h.arena.len() as int].parent);
}

/// Generating code for a block of statements keeps every block opening
/// with its own label: block `k` (from `2` on, after the header and
/// `main`), old or new, still starts with `.Lk:`.
/// (Which block a branch names is not stated here; `insert_break`, for one,
/// names the block after the current one.)
pub proof fn law_blocks_keep_labels(t: Tree, h: HandlerView, st: ScopeType)
    requires
        labels_ok(h),
        gen_scope(t, h, st) is Some,
    ensures
        labels_ok(gen_scope(t, h, st).unwrap()),
{
    lemma_labels_scope(t, h, st);
}

/// Generating code for a condition or an expression keeps every block
/// opening with its own label.
pub proof fn law_conditions_keep_labels(t: Tree, h: HandlerView)
    requires
        labels_ok(h),
        gen_condition_expr(t, h) is Some,
    ensures
        labels_ok(gen_condition_expr(t, h).unwrap()),
{
    lemma_labels_condition(t, h);
}

/// A fresh handler has no labelled block yet, so the property holds from
/// the start.
pub proof fn law_initial_labels()
    ensures
        labels_ok(HandlerView::initial()),
{
}

} // verus!
