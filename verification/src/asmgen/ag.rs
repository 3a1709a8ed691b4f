//! The assembly generator's state and output lines.

use std::collections::HashMap;
use vstd::prelude::*;
use vstd::string::StrSliceExecFns;
use crate::ir::module::Module;
use crate::strutil::{push_str, push_string, string_of};

verus! {

/// One line of assembly output.
#[derive(Clone)]
pub enum AsmInst {
    Instruction(String),
    Attribute(String),
    Label(String),
    Comment(String),
}

/// What an output line holds, as text.
pub enum AsmLine {
    Instruction(Seq<char>),
    Attribute(Seq<char>),
    Label(Seq<char>),
    Comment(Seq<char>),
}

impl View for AsmInst {
    type V = AsmLine;

    open spec fn view(&self) -> AsmLine {
        match self {
            AsmInst::Instruction(s) => AsmLine::Instruction(s@),
            AsmInst::Attribute(s) => AsmLine::Attribute(s@),
            AsmInst::Label(s) => AsmLine::Label(s@),
            AsmInst::Comment(s) => AsmLine::Comment(s@),
        }
    }
}

/// The text of a line: instructions and directives indented by a tab,
/// labels followed by a colon, comments after `# `; each ends the line.
pub open spec fn line_text(l: AsmLine) -> Seq<char> {
    match l {
        AsmLine::Instruction(s) => "\t"@ + s + "\n"@,
        AsmLine::Attribute(s) => "\t"@ + s + "\n"@,
        AsmLine::Label(s) => s + ":\n"@,
        AsmLine::Comment(s) => "# "@ + s + "\n"@,
    }
}

/// The lines of an output buffer.
pub open spec fn lines(v: Seq<AsmInst>) -> Seq<AsmLine> {
    v.map_values(|a: AsmInst| a@)
}

/// The text of a sequence of lines.
pub open spec fn asm_text(ls: Seq<AsmLine>) -> Seq<char>
    decreases ls.len(),
{
    if ls.len() == 0 {
        Seq::empty()
    } else {
        asm_text(ls.drop_last()) + line_text(ls.last())
    }
}

/// `inst` followed by a space and the arguments, each followed by `", "`,
/// with a trailing `", "` taken off.
pub open spec fn parts_text(inst: Seq<char>, args: Seq<Seq<char>>) -> Seq<char> {
    let c = inst + " "@ + args_with_commas(args);
    if c.len() >= 2 && c[c.len() - 2] == ',' && c[c.len() - 1] == ' ' {
        c.subrange(0, c.len() - 2)
    } else {
        c
    }
}

/// Each argument followed by `", "`.
pub open spec fn args_with_commas(args: Seq<Seq<char>>) -> Seq<char>
    decreases args.len(),
{
    if args.len() == 0 {
        Seq::empty()
    } else {
        args_with_commas(args.drop_last()) + args.last() + ", "@
    }
}

/// An instruction line built from a mnemonic and its arguments.
pub open spec fn ins(inst: Seq<char>, args: Seq<Seq<char>>) -> AsmLine {
    AsmLine::Instruction(parts_text(inst, args))
}

/// The views of a list of strings.
pub open spec fn string_views(v: Seq<String>) -> Seq<Seq<char>> {
    v.map_values(|s: String| s@)
}

impl AsmInst {
    /// The line's text.
    pub fn format(&self) -> (r: String)
        ensures
            r@ == line_text(self@),
    {
        match self {
            AsmInst::Instruction(s) | AsmInst::Attribute(s) => {
                let mut r = string_of("\t");
                push_string(&mut r, s);
                push_str(&mut r, "\n");
                r
            },
            AsmInst::Label(s) => {
                let mut r = s.clone();
                push_str(&mut r, ":\n");
                r
            },
            AsmInst::Comment(s) => {
                let mut r = string_of("# ");
                push_string(&mut r, s);
                push_str(&mut r, "\n");
                r
            },
        }
    }
}

/// Where code generation stands: the function, block and instruction at
/// hand (arena indices), the frame size, the frame offset of each value
/// (keyed by value id) and a counter of float comparisons.
pub struct Context {
    pub func: Option<usize>,
    pub bb: Option<usize>,
    pub inst: Option<usize>,
    pub frame_size: usize,
    pub offset_map: HashMap<usize, i32>,
    pub fcmp_cnt: usize,
}

impl Context {
    pub fn new() -> (r: Self)
        ensures
            r.func is None,
            r.bb is None,
            r.inst is None,
            r.frame_size == 0,
            r.offset_map@ == Map::<usize, i32>::empty(),
            r.fcmp_cnt == 0,
    {
        Context { func: None, bb: None, inst: None, frame_size: 0, offset_map: HashMap::new(), fcmp_cnt: 0 }
    }

    pub fn clear(&mut self)
        ensures
            final(self).func is None,
            final(self).bb is None,
            final(self).inst is None,
            final(self).frame_size == 0,
            final(self).offset_map@ == Map::<usize, i32>::empty(),
            final(self).fcmp_cnt == 0,
    {
        self.func = None;
        self.bb = None;
        self.inst = None;
        self.frame_size = 0;
        self.fcmp_cnt = 0;
        self.offset_map.clear();
    }
}

/// The assembly generator: the module, the context and the output lines.
pub struct AsmGen {
    pub m: Module,
    pub context: Context,
    pub output: Vec<AsmInst>,
}

impl Context {
    /// The function, block and instruction at hand and the comparison
    /// counter are as in `old`.
    pub open spec fn cursor_kept(self, old: Context) -> bool {
        &&& self.func == old.func
        &&& self.bb == old.bb
        &&& self.inst == old.inst
        &&& self.fcmp_cnt == old.fcmp_cnt
    }

    /// Block `b` is the block at hand and its comparison counter is reset;
    /// the function, instruction, frame and offsets are as in `old`.
    pub open spec fn entered_block(self, old: Context, b: usize) -> bool {
        &&& self.func == old.func
        &&& self.bb == Some(b)
        &&& self.inst == old.inst
        &&& self.fcmp_cnt == 0
        &&& self.frame_size == old.frame_size
        &&& self.offset_map@ == old.offset_map@
    }

    /// Makes `b` the block at hand and resets the comparison counter.
    pub fn enter_block(&mut self, b: usize)
        ensures
            final(self).entered_block(*old(self), b),
    {
        self.bb = Some(b);
        self.fcmp_cnt = 0;
    }
}

impl AsmGen {
    /// Everything but the output is as in `old`.
    pub open spec fn same_but_output(self, old: AsmGen) -> bool {
        &&& self.m == old.m
        &&& self.context.func == old.context.func
        &&& self.context.bb == old.context.bb
        &&& self.context.inst == old.context.inst
        &&& self.context.frame_size == old.context.frame_size
        &&& self.context.offset_map@ == old.context.offset_map@
        &&& self.context.fcmp_cnt == old.context.fcmp_cnt
    }

    pub fn new(m: Module) -> (r: Self)
        ensures
            r.m == m,
            r.context.func is None,
            r.context.bb is None,
            r.context.inst is None,
            r.context.frame_size == 0,
            r.context.offset_map@ == Map::<usize, i32>::empty(),
            r.context.fcmp_cnt == 0,
            r.output@.len() == 0,
    {
        AsmGen { m, context: Context::new(), output: Vec::new() }
    }

    /// Appends a line.
    pub fn emit(&mut self, line: AsmInst)
        ensures
            final(self).same_but_output(*old(self)),
            lines(final(self).output@) == lines(old(self).output@).push(line@),
    {
        let ghost before = self.output@;
        self.output.push(line);
        proof {
            assert(lines(self.output@) =~= lines(before).push(line@));
        }
    }

    /// Appends an instruction line.
    pub fn append_inst(&mut self, content: String)
        ensures
            final(self).same_but_output(*old(self)),
            lines(final(self).output@) == lines(old(self).output@).push(AsmLine::Instruction(content@)),
    {
        self.emit(AsmInst::Instruction(content));
    }

    /// Appends the line `ty`; `content` is not used.
    pub fn append_inst_with_type(&mut self, content: String, ty: AsmInst)
        ensures
            final(self).same_but_output(*old(self)),
            lines(final(self).output@) == lines(old(self).output@).push(ty@),
    {
        self.emit(ty);
    }

    /// Appends the instruction `inst` with the arguments `args`, separated
    /// by commas.
    pub fn append_inst_parts(&mut self, inst: &str, args: Vec<String>)
        ensures
            final(self).same_but_output(*old(self)),
            lines(final(self).output@) == lines(old(self).output@).push(ins(inst@, string_views(args@))),
    {
        let mut content = string_of(inst);
        push_str(&mut content, " ");
        let ghost head = content@;
        let n = args.len();
        let mut i: usize = 0;
        while i < n
            invariant
                n == args@.len(),
                0 <= i <= n,
                content@ == head + args_with_commas(string_views(args@.take(i as int))),
            decreases n - i,
        {
            push_string(&mut content, &args[i]);
            push_str(&mut content, ", ");
            proof {
                let sv = string_views(args@.take(i + 1));
                assert(sv.drop_last() =~= string_views(args@.take(i as int)));
                assert(sv.last() == args@[i as int]@);
            }
            i = i + 1;
        }
        assert(args@.take(n as int) =~= args@);
        let ghost c = content@;
        assert(c =~= inst@ + " "@ + args_with_commas(string_views(args@)));
        let cs = content.as_str();
        let len = cs.unicode_len();
        let text = if len >= 2 && cs.get_char(len - 2) == ',' && cs.get_char(len - 1) == ' ' {
            string_of(cs.substring_char(0, len - 2))
        } else {
            content.clone()
        };
        self.emit(AsmInst::Instruction(text));
    }

    /// The text of all output lines.
    pub fn print(&self) -> (r: String)
        ensures
            r@ == asm_text(lines(self.output@)),
    {
        let mut result = String::new();
        let n = self.output.len();
        let mut i: usize = 0;
        while i < n
            invariant
                n == self.output@.len(),
                0 <= i <= n,
                result@ == asm_text(lines(self.output@.take(i as int))),
            decreases n - i,
        {
            let t = self.output[i].format();
            push_string(&mut result, &t);
            proof {
                let ls = lines(self.output@.take(i + 1));
                assert(ls.drop_last() =~= lines(self.output@.take(i as int)));
                assert(ls.last() == self.output@[i as int]@);
            }
            i = i + 1;
        }
        assert(self.output@.take(n as int) =~= self.output@);
        result
    }
}

} // verus!
