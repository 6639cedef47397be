use vstd::prelude::*;
use vstd::string::StringExecFns;
use crate::move_ir::bytecode::{code_view, Bytecode, BytecodeV};
use crate::move_ir::control_flow_graph::{BlockContent, BlockId};
use crate::move_ir::bytecode_display::{
    line_text, pretty_print_bytecode, temp_str, temp_text, unknown_text,
};
use crate::move_ir::file_format::Visibility;
use crate::move_ir::generate_bytecode::StacklessBytecodeGenerator;
use crate::move_ir::types::{types_view, FunId, QualifiedId};
use crate::move_ir::utils::get_function_name;
use crate::utils::utils::{dec_digits, u128_decimal, visibility_str};

verus! {

/// What stands between the visibility and `fun`.
pub open spec fn modifier_text(native: bool, entry: bool) -> Seq<char> {
    if native {
        "native "@
    } else if entry {
        "entry"@
    } else {
        ""@
    }
}

/// How a visibility is written before `fun`.
pub open spec fn visibility_text(v: Visibility) -> Seq<char> {
    match v {
        Visibility::Public => "public "@,
        Visibility::Friend => "public(friend) "@,
        Visibility::Private => ""@,
    }
}

/// The first `n` type parameters, `#0` and so on, with a comma and a
/// blank between them.
pub open spec fn type_params_list(n: nat) -> Seq<char>
    decreases n,
{
    if n == 0 {
        Seq::empty()
    } else if n == 1 {
        "#0"@
    } else {
        type_params_list((n - 1) as nat) + ", #"@ + dec_digits((n - 1) as nat)
    }
}

/// The type parameters of a function as its header lists them: nothing
/// where it has none, else the list in angle brackets.
pub open spec fn type_params_text(n: nat) -> Seq<char> {
    if n == 0 {
        Seq::empty()
    } else {
        "<"@ + type_params_list(n) + ">"@
    }
}

fn type_params_str(n: u16) -> (r: String)
    ensures
        r@ == type_params_text(n as nat),
{
    if n == 0 {
        return String::new();
    }
    let mut list = String::from_str("#0");
    let mut i: u16 = 1;
    while i < n
        invariant
            1 <= i <= n,
            list@ == type_params_list(i as nat),
        decreases n - i,
    {
        list.append(", #");
        list.append(u128_decimal(i as u128).as_str());
        i += 1;
    }
    let mut out = String::from_str("<");
    out.append(list.as_str());
    out.append(">");
    out
}

impl<'a> StacklessBytecodeGenerator<'a> {
    /// The number of parameters of the function defined at `f`.
    pub open spec fn param_count(&self, f: int) -> nat {
        let d = self.module.function_defs@[f];
        let h = self.module.function_handles@[d.function as int];
        self.module.signatures@[h.parameters as int].0@.len()
    }

    /// The number of temps that a listing names: the declared locals of a
    /// function with a body, the parameters of a native one.
    pub open spec fn user_local_count(&self, f: int) -> nat {
        match self.module.function_defs@[f].code {
            Some(unit) => self.module.signatures@[unit.locals as int].0@.len(),
            None => self.param_count(f),
        }
    }

    /// The type of the temp `i` of the function at `f` as it is written.
    pub open spec fn temp_type_text(&self, f: int, i: int) -> Seq<char> {
        let types = types_view(self.functions@[f].local_types@);
        if 0 <= i < types.len() {
            self.type_text(types[i])
        } else {
            unknown_text()
        }
    }

    /// How a listing declares the temp `i` of the function at `f`: in a
    /// listing without bodies its type alone, else the temp, for a named
    /// temp a bar and its name, a colon and its type.
    pub open spec fn decl_text(&self, f: int, i: int, body: bool) -> Seq<char> {
        if !body {
            self.temp_type_text(f, i)
        } else if i < self.user_local_count(f) {
            temp_text(i as usize) + "|"@ + temp_text(i as usize) + ": "@ + self.temp_type_text(f, i)
        } else {
            temp_text(i as usize) + ": "@ + self.temp_type_text(f, i)
        }
    }

    /// The declarations of the first `n` temps of the function at `f`,
    /// with a comma and a blank between them.
    pub open spec fn decls_text(&self, f: int, n: nat, body: bool) -> Seq<char>
        decreases n,
    {
        if n == 0 {
            Seq::empty()
        } else if n == 1 {
            self.decl_text(f, 0, body)
        } else {
            self.decls_text(f, (n - 1) as nat, body) + ", "@ + self.decl_text(f, n - 1, body)
        }
    }

    /// What a header says of the results of the function at `f`: nothing
    /// where it has none, else a colon and the types, more than one of
    /// them in round brackets.
    pub open spec fn returns_text(&self, f: int) -> Seq<char> {
        let d = self.module.function_defs@[f];
        let h = self.module.function_handles@[d.function as int];
        let tys = self.ctx().type_params(h.return_);
        if tys.len() == 0 {
            Seq::empty()
        } else if tys.len() == 1 {
            ": "@ + self.types_text(tys, tys.len())
        } else {
            ": ("@ + self.types_text(tys, tys.len()) + ")"@
        }
    }

    /// The header of the function at `f`: visibility, modifier, `fun`,
    /// the module and the name, the type parameters, the parameters in
    /// round brackets, and the results.
    pub open spec fn header_text(&self, f: int, body: bool) -> Seq<char> {
        let d = self.module.function_defs@[f];
        let h = self.module.function_handles@[d.function as int];
        visibility_text(d.visibility) + modifier_text(d.spec_is_native(), d.is_entry) + " fun "@
            + self.symbol_text(self.module_name.name) + "::"@ + self.spec_function_name(f)
            + type_params_text(h.type_parameters as nat) + "("@ + self.decls_text(
            f,
            self.param_count(f),
            body,
        ) + ")"@ + self.returns_text(f)
    }

    /// The declarations of the temps of the function at `f` from its
    /// first temp behind the parameters to the temp before `n`, each on a
    /// line of its own behind `var`.
    pub open spec fn vars_text(&self, f: int, n: nat) -> Seq<char>
        decreases n,
    {
        if n <= self.param_count(f) {
            Seq::empty()
        } else {
            self.vars_text(f, (n - 1) as nat) + "     var "@ + self.decl_text(f, n - 1, true) + "\n"@
        }
    }

    /// The first `n` instructions of the function at `f`, each on a line
    /// of its own behind its offset.
    pub open spec fn lines_text(&self, f: int, n: nat) -> Seq<char>
        decreases n,
    {
        if n == 0 {
            Seq::empty()
        } else {
            let code = code_view(self.functions@[f].code@);
            self.lines_text(f, (n - 1) as nat) + line_text(
                (n - 1) as nat,
                self.bytecode_text(code, code[n - 1]),
            ) + "\n"@
        }
    }

    /// The function at `f` as a listing shows it: its header, and, where
    /// bodies are asked for, a semicolon for a native function, else in
    /// curly brackets its temps and its instructions.
    pub open spec fn function_text(&self, f: int, body: bool) -> Seq<char> {
        let function = self.functions@[f];
        if !body {
            self.header_text(f, body) + "\n"@
        } else if self.module.function_defs@[f].spec_is_native() {
            self.header_text(f, body) + ";\n"@
        } else {
            self.header_text(f, body) + " {\n"@ + self.vars_text(f, function.local_types@.len())
                + self.lines_text(f, function.code@.len()) + "}\n"@
        }
    }

    /// The first `n` functions as a listing shows them.
    pub open spec fn functions_text(&self, n: nat, body: bool) -> Seq<char>
        decreases n,
    {
        if n == 0 {
            Seq::empty()
        } else {
            self.functions_text((n - 1) as nat, body) + self.function_text(n - 1, body)
        }
    }

    /// The listing of one function, or of all.
    pub open spec fn listing_text(&self, body: bool, which: Option<usize>) -> Seq<char> {
        match which {
            Some(f) => self.function_text(f as int, body),
            None => self.functions_text(self.functions@.len(), body),
        }
    }

    fn param_count_exec(&self, f: usize) -> (r: usize)
        requires
            self.wf(),
            f < self.module.function_defs@.len(),
        ensures
            r == self.param_count(f as int),
    {
        assert(self.module.function_def_ok(f as int));
        let d = &self.module.function_defs[f];
        assert(self.module.function_handle_ok(d.function as int));
        let h = &self.module.function_handles[d.function as usize];
        self.module.signatures[h.parameters as usize].0.len()
    }

    fn user_local_count_exec(&self, f: usize) -> (r: usize)
        requires
            self.wf(),
            f < self.module.function_defs@.len(),
        ensures
            r == self.user_local_count(f as int),
    {
        assert(self.module.function_def_ok(f as int));
        match &self.module.function_defs[f].code {
            Some(unit) => self.module.signatures[unit.locals as usize].0.len(),
            None => self.param_count_exec(f),
        }
    }

    fn decl_str(&self, f: usize, i: usize, body: bool) -> (r: String)
        requires
            self.wf(),
            self.lifted_all(),
            f < self.functions@.len(),
        ensures
            r@ == self.decl_text(f as int, i as int, body),
    {
        let function = &self.functions[f];
        let ty = if i < function.local_types.len() {
            proof {
                assert(types_view(function.local_types@)[i as int] == function.local_types@[i as int]@);
            }
            self.display_type(&function.local_types[i])
        } else {
            String::from_str("??unknown??")
        };
        if !body {
            ty
        } else if i < self.user_local_count_exec(f) {
            let mut out = temp_str(i);
            out.append("|");
            out.append(self.get_local_name(i).as_str());
            out.append(": ");
            out.append(ty.as_str());
            out
        } else {
            let mut out = temp_str(i);
            out.append(": ");
            out.append(ty.as_str());
            out
        }
    }

    fn decls_str(&self, f: usize, n: usize, body: bool) -> (r: String)
        requires
            self.wf(),
            self.lifted_all(),
            f < self.functions@.len(),
        ensures
            r@ == self.decls_text(f as int, n as nat, body),
    {
        let mut out = String::new();
        let mut i: usize = 0;
        while i < n
            invariant
                self.wf(),
                self.lifted_all(),
                f < self.functions@.len(),
                i <= n,
                out@ == self.decls_text(f as int, i as nat, body),
            decreases n - i,
        {
            if i > 0 {
                out.append(", ");
            }
            let item = self.decl_str(f, i, body);
            out.append(item.as_str());
            proof {
                if i == 0 {
                    assert(Seq::<char>::empty() + item@ =~= item@);
                }
            }
            i += 1;
        }
        out
    }

    fn returns_str(&self, f: usize) -> (r: String)
        requires
            self.wf(),
            f < self.module.function_defs@.len(),
        ensures
            r@ == self.returns_text(f as int),
    {
        assert(self.module.function_def_ok(f as int));
        let d = &self.module.function_defs[f];
        assert(self.module.function_handle_ok(d.function as int));
        let h = &self.module.function_handles[d.function as usize];
        let tys = self.get_type_params(h.return_);
        if tys.len() == 0 {
            String::new()
        } else if tys.len() == 1 {
            let mut out = String::from_str(": ");
            out.append(self.types_str(&tys).as_str());
            out
        } else {
            let mut out = String::from_str(": (");
            out.append(self.types_str(&tys).as_str());
            out.append(")");
            out
        }
    }

    fn header_str(&self, f: usize, body: bool) -> (r: String)
        requires
            self.wf(),
            self.lifted_all(),
            f < self.functions@.len(),
        ensures
            r@ == self.header_text(f as int, body),
    {
        assert(self.module.function_def_ok(f as int));
        let d = &self.module.function_defs[f];
        assert(self.module.function_handle_ok(d.function as int));
        let h = &self.module.function_handles[d.function as usize];
        let mut out = String::from_str(visibility_str(&d.visibility));
        out.append(
            if d.is_native() {
                "native "
            } else if d.is_entry {
                "entry"
            } else {
                ""
            },
        );
        out.append(" fun ");
        out.append(self.symbol_str(self.module_name.name).as_str());
        out.append("::");
        out.append(get_function_name(f, self).as_str());
        out.append(type_params_str(h.type_parameters).as_str());
        out.append("(");
        out.append(self.decls_str(f, self.param_count_exec(f), body).as_str());
        out.append(")");
        out.append(self.returns_str(f).as_str());
        out
    }

    fn vars_str(&self, f: usize) -> (r: String)
        requires
            self.wf(),
            self.lifted_all(),
            f < self.functions@.len(),
        ensures
            r@ == self.vars_text(f as int, self.functions@[f as int].local_types@.len()),
    {
        let n = self.functions[f].local_types.len();
        let first = self.param_count_exec(f);
        let mut out = String::new();
        if first >= n {
            return out;
        }
        let mut i: usize = first;
        while i < n
            invariant
                self.wf(),
                self.lifted_all(),
                f < self.functions@.len(),
                first == self.param_count(f as int),
                first <= i <= n,
                out@ == self.vars_text(f as int, i as nat),
            decreases n - i,
        {
            out.append("     var ");
            out.append(self.decl_str(f, i, true).as_str());
            out.append("\n");
            i += 1;
        }
        out
    }

    fn lines_str(&self, f: usize) -> (r: String)
        requires
            self.wf(),
            self.lifted_all(),
            f < self.functions@.len(),
        ensures
            r@ == self.lines_text(f as int, self.functions@[f as int].code@.len()),
    {
        let code = &self.functions[f].code;
        let mut out = String::new();
        let mut k: usize = 0;
        while k < code.len()
            invariant
                self.wf(),
                f < self.functions@.len(),
                code == &self.functions@[f as int].code,
                k <= code.len(),
                out@ == self.lines_text(f as int, k as nat),
            decreases code.len() - k,
        {
            proof {
                assert(code_view(code@)[k as int] == code@[k as int]@);
            }
            out.append(pretty_print_bytecode(code, k, &code[k], self).as_str());
            out.append("\n");
            k += 1;
        }
        out
    }

    fn function_str(&self, f: usize, body: bool) -> (r: String)
        requires
            self.wf(),
            self.lifted_all(),
            f < self.functions@.len(),
        ensures
            r@ == self.function_text(f as int, body),
    {
        let mut out = self.header_str(f, body);
        if !body {
            out.append("\n");
        } else if self.module.function_defs[f].is_native() {
            out.append(";\n");
        } else {
            out.append(" {\n");
            out.append(self.vars_str(f).as_str());
            out.append(self.lines_str(f).as_str());
            out.append("}\n");
        }
        out
    }

    /// The name under which a listing knows the temp `idx`: the temp
    /// itself, since a compiled module names no local.
    pub fn get_local_name(&self, idx: usize) -> (r: String)
        ensures
            r@ == temp_text(idx),
    {
        temp_str(idx)
    }

    /// The listing of the function at `display_one_or_all`, or of every
    /// function where that is `None`, with the bodies of the functions if
    /// `display_function_body` asks for them.
    pub fn display(&self, display_function_body: bool, display_one_or_all: Option<usize>) -> (r:
        String)
        requires
            self.wf(),
            self.lifted_all(),
            display_one_or_all matches Some(f) ==> f < self.functions@.len(),
        ensures
            r@ == self.listing_text(display_function_body, display_one_or_all),
    {
        match display_one_or_all {
            Some(f) => self.function_str(f, display_function_body),
            None => {
                let mut out = String::new();
                let mut f: usize = 0;
                while f < self.functions.len()
                    invariant
                        self.wf(),
                        self.lifted_all(),
                        f <= self.functions@.len(),
                        out@ == self.functions_text(f as nat, display_function_body),
                    decreases self.functions.len() - f,
                {
                    out.append(self.function_str(f, display_function_body).as_str());
                    f += 1;
                }
                out
            },
        }
    }

    /// A function by the name of its module and its own name.
    pub open spec fn qualified_text(&self, qid: QualifiedId<FunId>) -> Seq<char> {
        self.module_text(qid.module_id) + "::"@ + self.symbol_text(qid.id.0)
    }

    pub fn get_fname_by_qid(&self, qid: &QualifiedId<FunId>) -> (r: String)
        ensures
            r@ == self.qualified_text(*qid),
    {
        let mut out = self.module_str(qid.module_id);
        out.append("::");
        out.append(self.symbol_str(qid.id.0).as_str());
        out
    }
}

/// The range of a block as the heading of its listing names it: both
/// ends behind `offset`, or `X` for a block that holds no code.
pub open spec fn block_range_text(content: BlockContent) -> Seq<char> {
    match content {
        BlockContent::Basic { lower, upper } => "offset "@ + dec_digits(lower as nat) + "..="@
            + dec_digits(upper as nat),
        BlockContent::Dummy => "X"@,
    }
}

impl<'a> StacklessBytecodeGenerator<'a> {
    /// The `k` instructions of `code` from offset `lower` on, each on a
    /// line of its own behind its offset.
    pub open spec fn range_text(&self, code: Seq<BytecodeV>, lower: nat, k: nat) -> Seq<char>
        decreases k,
    {
        if k == 0 {
            Seq::empty()
        } else {
            self.range_text(code, lower, (k - 1) as nat) + line_text(
                (lower + k - 1) as nat,
                self.bytecode_text(code, code[lower + k - 1]),
            ) + "\n"@
        }
    }

    /// The listing of a block of `code`: a heading with the number of the
    /// block and its range, and the instructions of the block.
    pub open spec fn block_text(
        &self,
        code: Seq<BytecodeV>,
        block_id: BlockId,
        content: BlockContent,
    ) -> Seq<char> {
        let heading = "[Block "@ + dec_digits(block_id as nat) + " - "@ + block_range_text(content)
            + "]\n"@;
        match content {
            BlockContent::Basic { lower, upper } => heading + self.range_text(
                code,
                lower as nat,
                (upper - lower + 1) as nat,
            ),
            BlockContent::Dummy => heading,
        }
    }

    /// The listing of the block `block_id` of `code`, which holds
    /// `content`.
    pub fn block_listing(&self, code: &Vec<Bytecode>, block_id: BlockId, content: &BlockContent) -> (r:
        String)
        requires
            self.wf(),
            *content matches BlockContent::Basic { lower, upper } ==> lower <= upper < code@.len(),
        ensures
            r@ == self.block_text(code_view(code@), block_id, *content),
    {
        let mut out = String::from_str("[Block ");
        out.append(u128_decimal(block_id as u128).as_str());
        out.append(" - ");
        match content {
            BlockContent::Basic { lower, upper } => {
                let mut range = String::from_str("offset ");
                range.append(u128_decimal(*lower as u128).as_str());
                range.append("..=");
                range.append(u128_decimal(*upper as u128).as_str());
                out.append(range.as_str());
                out.append("]\n");
                let mut lines = String::new();
                let mut k: usize = *lower;
                while k <= *upper
                    invariant
                        self.wf(),
                        *lower <= k <= *upper + 1,
                        *upper < code.len(),
                        lines@ == self.range_text(
                            code_view(code@),
                            *lower as nat,
                            (k - *lower) as nat,
                        ),
                    decreases *upper + 1 - k,
                {
                    proof {
                        assert(code_view(code@)[k as int] == code@[k as int]@);
                    }
                    lines.append(pretty_print_bytecode(code, k, &code[k], self).as_str());
                    lines.append("\n");
                    k += 1;
                }
                out.append(lines.as_str());
            },
            BlockContent::Dummy => {
                out.append("X");
                out.append("]\n");
            },
        }
        out
    }
}

} // verus!
