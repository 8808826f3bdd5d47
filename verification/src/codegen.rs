use vstd::prelude::*;
use crate::ast::{Expr, Stmt, TypedArgument};
use crate::error::TranslateError;
use crate::value::{value_text, ValueType};

verus! {

// ---------------------------------------------------------------------------
// The generated output, modelled exactly.
//
// Output text is described as a sequence of chunks: plain text, and the two
// scope markers that bracket an allocation region of the target runtime.
// The markers render as fixed text, so the chunk sequence determines the
// output exactly; keeping the markers as chunks of their own is what lets
// the well-nesting of scopes be stated and proved.
// ---------------------------------------------------------------------------

/// One piece of generated output: a scope-open marker, a scope-close
/// marker, or plain text.
pub enum Chunk {
    Open,
    Close,
    Text(Seq<char>),
}

/// The text a scope-open marker renders as.
pub open spec fn open_text() -> Seq<char> {
    "{area_start();"@
}

/// The text a scope-close marker renders as.
pub open spec fn close_text() -> Seq<char> {
    "area_end();}"@
}

/// The text one chunk renders as.
pub open spec fn chunk_text(c: Chunk) -> Seq<char> {
    match c {
        Chunk::Open => open_text(),
        Chunk::Close => close_text(),
        Chunk::Text(s) => s,
    }
}

/// The text a chunk sequence renders as, in order.
pub open spec fn chunks_text(cs: Seq<Chunk>) -> Seq<char>
    decreases cs.len(),
{
    if cs.len() == 0 {
        Seq::<char>::empty()
    } else {
        chunk_text(cs[0]) + chunks_text(cs.drop_first())
    }
}

pub proof fn lemma_chunks_text_concat(a: Seq<Chunk>, b: Seq<Chunk>)
    ensures
        chunks_text(a + b) == chunks_text(a) + chunks_text(b),
    decreases a.len(),
{
    if a.len() == 0 {
        assert(a + b =~= b);
        assert(chunks_text(a) + chunks_text(b) =~= chunks_text(b));
    } else {
        assert((a + b).drop_first() =~= a.drop_first() + b);
        lemma_chunks_text_concat(a.drop_first(), b);
        assert((a + b)[0] == a[0]);
        assert(chunk_text(a[0]) + (chunks_text(a.drop_first()) + chunks_text(b)) =~= (chunk_text(
            a[0],
        ) + chunks_text(a.drop_first())) + chunks_text(b));
    }
}

pub proof fn lemma_chunks_text_one(c: Chunk)
    ensures
        chunks_text(seq![c]) == chunk_text(c),
{
    assert(seq![c].len() == 1);
    assert(seq![c][0] == c);
    assert(seq![c].drop_first() =~= Seq::<Chunk>::empty());
    assert(chunks_text(Seq::<Chunk>::empty()) == Seq::<char>::empty());
    assert(chunk_text(c) + Seq::<char>::empty() =~= chunk_text(c));
}

pub proof fn lemma_chunks_text_two(c1: Chunk, c2: Chunk)
    ensures
        chunks_text(seq![c1, c2]) == chunk_text(c1) + chunk_text(c2),
{
    assert(seq![c1, c2].drop_first() =~= seq![c2]);
    lemma_chunks_text_one(c2);
}

// ---------------------------------------------------------------------------
// Scope discipline: every opened allocation scope closes exactly once, on
// every control-flow shape, and never before it was opened.
// ---------------------------------------------------------------------------

/// How many scope-open markers a chunk sequence holds.
pub open spec fn count_open(cs: Seq<Chunk>) -> int
    decreases cs.len(),
{
    if cs.len() == 0 {
        0
    } else {
        count_open(cs.drop_last()) + (if cs.last() is Open {
            1int
        } else {
            0int
        })
    }
}

/// How many scope-close markers a chunk sequence holds.
pub open spec fn count_close(cs: Seq<Chunk>) -> int
    decreases cs.len(),
{
    if cs.len() == 0 {
        0
    } else {
        count_close(cs.drop_last()) + (if cs.last() is Close {
            1int
        } else {
            0int
        })
    }
}

/// Scope markers are well nested: they balance over the whole sequence,
/// and no prefix closes more scopes than it has opened.
pub open spec fn well_nested(cs: Seq<Chunk>) -> bool {
    &&& count_open(cs) == count_close(cs)
    &&& forall|k: int| 0 <= k <= cs.len() ==> count_close(#[trigger] cs.take(k)) <= count_open(cs.take(k))
}

pub proof fn lemma_count_concat(a: Seq<Chunk>, b: Seq<Chunk>)
    ensures
        count_open(a + b) == count_open(a) + count_open(b),
        count_close(a + b) == count_close(a) + count_close(b),
    decreases b.len(),
{
    if b.len() == 0 {
        assert(a + b =~= a);
    } else {
        assert((a + b).drop_last() =~= a + b.drop_last());
        assert((a + b).last() == b.last());
        lemma_count_concat(a, b.drop_last());
    }
}

proof fn lemma_wn_empty()
    ensures
        well_nested(Seq::<Chunk>::empty()),
{
    assert forall|k: int| 0 <= k <= Seq::<Chunk>::empty().len() implies count_close(
        #[trigger] Seq::<Chunk>::empty().take(k),
    ) <= count_open(Seq::<Chunk>::empty().take(k)) by {
        assert(Seq::<Chunk>::empty().take(k) =~= Seq::<Chunk>::empty());
    }
}

/// A lone text chunk opens and closes nothing.
proof fn lemma_wn_text(s: Seq<char>)
    ensures
        well_nested(seq![Chunk::Text(s)]),
{
    let cs = seq![Chunk::Text(s)];
    assert(cs.drop_last() =~= Seq::<Chunk>::empty());
    assert(cs.last() == Chunk::Text(s));
    assert(count_open(Seq::<Chunk>::empty()) == 0);
    assert(count_close(Seq::<Chunk>::empty()) == 0);
    assert(count_open(cs) == 0);
    assert(count_close(cs) == 0);
    assert forall|k: int| 0 <= k <= cs.len() implies count_close(#[trigger] cs.take(k))
        <= count_open(cs.take(k)) by {
        if k == 0 {
            assert(cs.take(0) =~= Seq::<Chunk>::empty());
        } else {
            assert(cs.take(k) =~= cs);
        }
    }
}

/// Well-nested sequences stay well nested side by side.
proof fn lemma_wn_concat(a: Seq<Chunk>, b: Seq<Chunk>)
    requires
        well_nested(a),
        well_nested(b),
    ensures
        well_nested(a + b),
{
    lemma_count_concat(a, b);
    assert forall|k: int| 0 <= k <= (a + b).len() implies count_close(#[trigger] (a + b).take(k))
        <= count_open((a + b).take(k)) by {
        if k <= a.len() {
            assert((a + b).take(k) =~= a.take(k));
        } else {
            assert((a + b).take(k) =~= a + b.take(k - a.len()));
            lemma_count_concat(a, b.take(k - a.len()));
        }
    }
}

/// A well-nested body wrapped in one open/close marker pair stays well
/// nested.
proof fn lemma_wn_bracket(b: Seq<Chunk>)
    requires
        well_nested(b),
    ensures
        well_nested(seq![Chunk::Open] + b + seq![Chunk::Close]),
{
    let o = seq![Chunk::Open];
    let c = seq![Chunk::Close];
    let whole = o + b + c;
    assert(o.drop_last() =~= Seq::<Chunk>::empty());
    assert(c.drop_last() =~= Seq::<Chunk>::empty());
    assert(o.last() == Chunk::Open);
    assert(c.last() == Chunk::Close);
    assert(count_open(Seq::<Chunk>::empty()) == 0);
    assert(count_close(Seq::<Chunk>::empty()) == 0);
    assert(count_open(o) == 1);
    assert(count_close(o) == 0);
    assert(count_open(c) == 0);
    assert(count_close(c) == 1);
    lemma_count_concat(o, b);
    lemma_count_concat(o + b, c);
    assert forall|k: int| 0 <= k <= whole.len() implies count_close(#[trigger] whole.take(k))
        <= count_open(whole.take(k)) by {
        if k == 0 {
            assert(whole.take(0) =~= Seq::<Chunk>::empty());
        } else if k <= 1 + b.len() {
            assert(whole.take(k) =~= o + b.take(k - 1));
            lemma_count_concat(o, b.take(k - 1));
        } else {
            assert(whole.take(k) =~= whole);
        }
    }
}

/// A text chunk, a marker pair around a well-nested body: the shape of
/// every braced region the generator emits.
proof fn lemma_wn_headed_bracket(h: Seq<char>, b: Seq<Chunk>)
    requires
        well_nested(b),
    ensures
        well_nested(seq![Chunk::Text(h), Chunk::Open] + b + seq![Chunk::Close]),
{
    lemma_wn_text(h);
    lemma_wn_bracket(b);
    lemma_wn_concat(seq![Chunk::Text(h)], seq![Chunk::Open] + b + seq![Chunk::Close]);
    assert(seq![Chunk::Text(h)] + (seq![Chunk::Open] + b + seq![Chunk::Close]) =~= seq![
        Chunk::Text(h),
        Chunk::Open,
    ] + b + seq![Chunk::Close]);
}

// ---------------------------------------------------------------------------
// What generation can lower. Constructor expressions are deliberately
// unsupported: reaching one is the only way generation fails.
// ---------------------------------------------------------------------------

/// Whether generation can lower an expression: it reaches no constructor
/// expression.
pub open spec fn expr_ok(e: Expr) -> bool
    decreases e,
{
    match e {
        Expr::Value(_) => true,
        Expr::VarUse(_) => true,
        Expr::Binary(_, l, r) => expr_ok(*l) && expr_ok(*r),
        Expr::Condition(_, l, r) => expr_ok(*l) && expr_ok(*r),
        Expr::Unary(_, operand) => expr_ok(*operand),
        Expr::Functional(_, args) => forall|i: int|
            0 <= i < args.len() ==> expr_ok(#[trigger] args[i]),
        Expr::New(_, _) => false,
    }
}

/// Whether generation can lower one statement in statement position.
/// A block in statement position emits only a newline and is never
/// descended into, so it is always lowerable; `use`, `struct` and `func`
/// declarations emit nothing in statement position.
pub open spec fn stmt_ok(s: Stmt) -> bool
    decreases s, 0int,
{
    match s {
        Stmt::VarDef(_, e, _) => expr_ok(*e),
        Stmt::Assign(_, e) => expr_ok(*e),
        Stmt::If(c, body, els) => expr_ok(*c) && stmt_or_block_ok(*body) && (match *els {
            Some(eb) => stmt_or_block_ok(eb),
            None => true,
        }),
        Stmt::Block(_) => true,
        Stmt::While(c, body) => expr_ok(*c) && stmt_or_block_ok(*body),
        Stmt::Function(e) => expr_ok(*e),
        Stmt::FunctionDef(_, _, _, _) => true,
        Stmt::Return(e) => expr_ok(*e),
        Stmt::Use(_) => true,
        Stmt::Struct(_, _) => true,
    }
}

/// Whether generation can lower a body: a block is lowered one statement
/// at a time; any other statement is lowered alone in place of a block.
pub open spec fn stmt_or_block_ok(s: Stmt) -> bool
    decreases s, 1int,
{
    match s {
        Stmt::Block(ss) => forall|i: int| 0 <= i < ss.len() ==> stmt_ok(#[trigger] ss[i]),
        _ => stmt_ok(s),
    }
}

// ---------------------------------------------------------------------------
// Expression lowering: direct textual transcription, relying on tree shape
// (not re-inserted parentheses) for operator precedence.
// ---------------------------------------------------------------------------

/// The C text of an expression. Defined (as the empty text) even on
/// constructor expressions, which generation refuses before using it.
pub open spec fn expr_text(e: Expr) -> Seq<char>
    decreases e, 0int,
{
    match e {
        Expr::Value(v) => value_text(v),
        Expr::VarUse(name) => name@,
        Expr::Binary(op, l, r) => expr_text(*l) + seq![op] + expr_text(*r),
        Expr::Condition(op, l, r) => expr_text(*l) + op@ + expr_text(*r),
        Expr::Unary(op, operand) => seq![op] + "("@ + expr_text(*operand) + ")"@,
        Expr::Functional(name, args) => name@ + "("@ + call_args_text(args, args.len() as int)
            + ")"@,
        Expr::New(_, _) => Seq::<char>::empty(),
    }
}

/// The comma-joined C text of the first `k` argument expressions.
pub open spec fn call_args_text(args: Vec<Expr>, k: int) -> Seq<char>
    decreases args, 1int, k,
{
    if k <= 0 || k > args.len() {
        Seq::<char>::empty()
    } else if k == 1 {
        expr_text(args[0])
    } else {
        call_args_text(args, k - 1) + ", "@ + expr_text(args[k - 1])
    }
}

// ---------------------------------------------------------------------------
// Statement lowering.
// ---------------------------------------------------------------------------

/// The C type a declared type maps to.
pub open spec fn type_text(t: ValueType) -> Seq<char> {
    match t {
        ValueType::Number => "double"@,
        ValueType::String => "char*"@,
        ValueType::Unit => "void"@,
    }
}

/// The C declaration text of one typed name: type, space, name.
pub open spec fn field_decl_text(f: TypedArgument) -> Seq<char> {
    type_text(f.typ) + " "@ + f.name@
}

/// The struct-field text of the first `k` fields: each field declaration
/// followed by `; `.
pub open spec fn fields_cat_text(fs: Vec<TypedArgument>, k: int) -> Seq<char>
    decreases k,
{
    if k <= 0 || k > fs.len() {
        Seq::<char>::empty()
    } else {
        fields_cat_text(fs, k - 1) + field_decl_text(fs[k - 1]) + "; "@
    }
}

/// The text between the braces of a struct typedef. A struct with no
/// fields still renders a lone `; `, as the joining rule produces.
pub open spec fn struct_fields_text(fs: Vec<TypedArgument>) -> Seq<char> {
    if fs.len() == 0 {
        "; "@
    } else {
        fields_cat_text(fs, fs.len() as int)
    }
}

/// The comma-joined parameter text of the first `k` parameters.
pub open spec fn params_text(fs: Vec<TypedArgument>, k: int) -> Seq<char>
    decreases k,
{
    if k <= 0 || k > fs.len() {
        Seq::<char>::empty()
    } else if k == 1 {
        field_decl_text(fs[0])
    } else {
        params_text(fs, k - 1) + ","@ + field_decl_text(fs[k - 1])
    }
}

/// The chunks of one statement in statement position.
pub open spec fn stmt_chunks(s: Stmt) -> Seq<Chunk>
    decreases s, 2int, 0int,
{
    match s {
        Stmt::Assign(name, e) => seq![Chunk::Text(name@ + " = "@ + expr_text(*e) + ";"@)],
        Stmt::VarDef(name, e, t) => seq![
            Chunk::Text(type_text(t) + " "@ + name@ + " = "@ + expr_text(*e) + ";"@),
        ],
        Stmt::Return(e) => seq![Chunk::Text("return "@ + expr_text(*e) + ";"@)],
        Stmt::If(c, body, els) => seq![Chunk::Text("if ("@ + expr_text(*c) + ") "@), Chunk::Open]
            + stmt_or_block_chunks(*body) + seq![Chunk::Close] + (match *els {
            Some(eb) => seq![Chunk::Text("else "@), Chunk::Open] + stmt_or_block_chunks(eb)
                + seq![Chunk::Close],
            None => Seq::<Chunk>::empty(),
        }),
        Stmt::While(c, body) => seq![
            Chunk::Text("while ("@ + expr_text(*c) + ") "@),
            Chunk::Open,
        ] + stmt_or_block_chunks(*body) + seq![Chunk::Close],
        Stmt::Function(e) => seq![Chunk::Text(expr_text(*e) + ";"@)],
        Stmt::Struct(_, _) => Seq::<Chunk>::empty(),
        Stmt::FunctionDef(_, _, _, _) => Seq::<Chunk>::empty(),
        Stmt::Use(_) => Seq::<Chunk>::empty(),
        Stmt::Block(_) => seq![Chunk::Text("\n"@)],
    }
}

/// The chunks of a body: a block is its statements' chunks in order; any
/// other statement stands alone in place of a block.
pub open spec fn stmt_or_block_chunks(s: Stmt) -> Seq<Chunk>
    decreases s, 3int, 0int,
{
    match s {
        Stmt::Block(ss) => stmts_chunks(ss, ss.len() as int),
        _ => stmt_chunks(s),
    }
}

/// The chunks of the first `k` statements of a list, in order.
pub open spec fn stmts_chunks(ss: Vec<Stmt>, k: int) -> Seq<Chunk>
    decreases ss, 4int, k,
{
    if k <= 0 || k > ss.len() {
        Seq::<Chunk>::empty()
    } else {
        stmts_chunks(ss, k - 1) + stmt_chunks(ss[k - 1])
    }
}

// ---------------------------------------------------------------------------
// The outer pass: `use` includes, struct typedefs, function definitions.
// ---------------------------------------------------------------------------

/// The include lines of the `use` declarations among the first `k`
/// top-level statements, in source order.
pub open spec fn uses_text(ss: Vec<Stmt>, k: int) -> Seq<char>
    decreases k,
{
    if k <= 0 || k > ss.len() {
        Seq::<char>::empty()
    } else {
        uses_text(ss, k - 1) + (match ss[k - 1] {
            Stmt::Use(module) => "#include \""@ + module@ + ".h\"\n"@,
            _ => Seq::<char>::empty(),
        })
    }
}

/// The struct typedefs of the `struct` declarations among the first `k`
/// top-level statements, in source order, fields in declared order.
pub open spec fn structs_text(ss: Vec<Stmt>, k: int) -> Seq<char>
    decreases k,
{
    if k <= 0 || k > ss.len() {
        Seq::<char>::empty()
    } else {
        structs_text(ss, k - 1) + (match ss[k - 1] {
            Stmt::Struct(name, fields) => "typedef struct {"@ + struct_fields_text(fields) + "} "@
                + name@ + ";"@,
            _ => Seq::<char>::empty(),
        })
    }
}

/// The chunks of one C function definition: mapped return type, name,
/// mapped parameters, then the body inside one scope-marker pair.
pub open spec fn funcdef_chunks(
    name: Seq<char>,
    args: Vec<TypedArgument>,
    body: Stmt,
    ret: ValueType,
) -> Seq<Chunk> {
    seq![
        Chunk::Text(type_text(ret) + " "@ + name + " ("@ + params_text(args, args.len() as int) + ") "@),
        Chunk::Open,
    ] + stmt_or_block_chunks(body) + seq![Chunk::Close]
}

/// Whether every function definition among the first `k` top-level
/// statements has a lowerable body.
pub open spec fn funcs_ok(ss: Vec<Stmt>, k: int) -> bool {
    forall|i: int|
        0 <= i < k && i < ss.len() ==> (#[trigger] ss[i] matches Stmt::FunctionDef(
            _,
            _,
            body,
            _,
        ) ==> stmt_or_block_ok(*body))
}

/// The chunks of the function definitions among the first `k` top-level
/// statements, in source order.
pub open spec fn funcs_chunks(ss: Vec<Stmt>, k: int) -> Seq<Chunk>
    decreases k,
{
    if k <= 0 || k > ss.len() {
        Seq::<Chunk>::empty()
    } else {
        funcs_chunks(ss, k - 1) + (match ss[k - 1] {
            Stmt::FunctionDef(name, args, body, ret) => funcdef_chunks(name@, args, *body, ret),
            _ => Seq::<Chunk>::empty(),
        })
    }
}

// ---------------------------------------------------------------------------
// The whole program.
// ---------------------------------------------------------------------------

/// The fixed runtime header include that opens every output.
pub open spec fn header_text() -> Seq<char> {
    "#include \"area.h\"\n"@
}

/// Whether generation succeeds on a root tree: every function body and
/// every top-level statement is lowerable.
pub open spec fn program_ok(prog: Stmt) -> bool {
    match prog {
        Stmt::Block(ss) => funcs_ok(ss, ss.len() as int) && (forall|i: int|
            0 <= i < ss.len() ==> stmt_ok(#[trigger] ss[i])),
        _ => true,
    }
}

/// The chunks of a whole translation: the fixed header, the includes,
/// the struct typedefs, the function definitions, then every remaining
/// top-level statement as the body of a synthesized `main` entry point
/// wrapped in one scope-marker pair.
pub open spec fn program_chunks(prog: Stmt) -> Seq<Chunk> {
    match prog {
        Stmt::Block(ss) => seq![
            Chunk::Text(header_text() + uses_text(ss, ss.len() as int) + structs_text(ss, ss.len() as int)),
        ] + funcs_chunks(ss, ss.len() as int) + seq![Chunk::Text("void main() "@), Chunk::Open]
            + stmts_chunks(ss, ss.len() as int) + seq![Chunk::Close],
        _ => seq![Chunk::Text(header_text())],
    }
}

/// The output text of a whole translation.
pub open spec fn program_text(prog: Stmt) -> Seq<char> {
    chunks_text(program_chunks(prog))
}

// ---------------------------------------------------------------------------
// The executable generator.
// ---------------------------------------------------------------------------

/// Relies on std's String::push: appends exactly the one character.
#[verifier::external_body]
fn push_char(s: &mut String, c: char)
    ensures
        final(s)@ == old(s)@.push(c),
{
    s.push(c);
}

/// Maps a declared type to its C type text.
fn convert_to_c_type(t: &ValueType) -> (r: &'static str)
    ensures
        r@ == type_text(*t),
{
    match t {
        ValueType::Number => "double",
        ValueType::String => "char*",
        ValueType::Unit => "void",
    }
}

/// Renders one typed name as a C declaration: type, space, name.
fn field_decl(f: &TypedArgument) -> (r: String)
    ensures
        r@ == field_decl_text(*f),
{
    let mut out = convert_to_c_type(&f.typ).to_owned();
    out.append(" ");
    out.append(f.name.as_str());
    out
}

/// Lowers one expression to C text, or fails on a constructor expression.
fn gen_expr(e: &Expr) -> (r: Result<String, TranslateError>)
    ensures
        r matches Ok(t) ==> expr_ok(*e) && t@ == expr_text(*e),
        r matches Err(err) ==> !expr_ok(*e) && err == TranslateError::UnsupportedFeature,
    decreases *e,
{
    match e {
        Expr::Value(v) => Ok(v.to_string()),
        Expr::VarUse(name) => {
            let mut out = String::new();
            out.append(name.as_str());
            Ok(out)
        },
        Expr::Binary(op, l, r) => {
            let lt = gen_expr(l)?;
            let rt = gen_expr(r)?;
            let mut out = lt;
            push_char(&mut out, *op);
            out.append(rt.as_str());
            Ok(out)
        },
        Expr::Condition(op, l, r) => {
            let lt = gen_expr(l)?;
            let rt = gen_expr(r)?;
            let mut out = lt;
            out.append(op.as_str());
            out.append(rt.as_str());
            Ok(out)
        },
        Expr::Unary(op, operand) => {
            let it = gen_expr(operand)?;
            let mut out = String::new();
            push_char(&mut out, *op);
            out.append("(");
            out.append(it.as_str());
            out.append(")");
            Ok(out)
        },
        Expr::Functional(name, args) => {
            let mut out = String::new();
            out.append(name.as_str());
            out.append("(");
            let mut i: usize = 0;
            while i < args.len()
                invariant
                    *e is Functional,
                    e->Functional_1 == *args,
                    i <= args.len(),
                    out@ == name@ + "("@ + call_args_text(*args, i as int),
                    forall|j: int| 0 <= j < i ==> expr_ok(#[trigger] args@[j]),
                decreases args.len() - i,
            {
                if i > 0 {
                    out.append(", ");
                }
                let at = gen_expr(&args[i])?;
                out.append(at.as_str());
                i += 1;
            }
            out.append(")");
            Ok(out)
        },
        Expr::New(_, _) => Err(TranslateError::UnsupportedFeature),
    }
}

/// Lowers one statement in statement position, or fails on a constructor
/// expression.
fn gen_stmt(s: &Stmt) -> (r: Result<String, TranslateError>)
    ensures
        r matches Ok(t) ==> stmt_ok(*s) && t@ == chunks_text(stmt_chunks(*s)),
        r matches Err(err) ==> !stmt_ok(*s) && err == TranslateError::UnsupportedFeature,
    decreases *s, 2int,
{
    match s {
        Stmt::Assign(name, e) => {
            let et = gen_expr(e)?;
            let mut out = String::new();
            out.append(name.as_str());
            out.append(" = ");
            out.append(et.as_str());
            out.append(";");
            proof {
                lemma_chunks_text_one(stmt_chunks(*s)[0]);
            }
            Ok(out)
        },
        Stmt::VarDef(name, e, t) => {
            let et = gen_expr(e)?;
            let mut out = convert_to_c_type(t).to_owned();
            out.append(" ");
            out.append(name.as_str());
            out.append(" = ");
            out.append(et.as_str());
            out.append(";");
            proof {
                lemma_chunks_text_one(stmt_chunks(*s)[0]);
            }
            Ok(out)
        },
        Stmt::Return(e) => {
            let et = gen_expr(e)?;
            let mut out = "return ".to_owned();
            out.append(et.as_str());
            out.append(";");
            proof {
                lemma_chunks_text_one(stmt_chunks(*s)[0]);
            }
            Ok(out)
        },
        Stmt::If(c, body, els) => {
            let ct = gen_expr(c)?;
            let bt = gen_stmt_or_block(body)?;
            let mut out = "if (".to_owned();
            out.append(ct.as_str());
            out.append(") ");
            out.append("{area_start();");
            out.append(bt.as_str());
            out.append("area_end();}");
            proof {
                lemma_if_chunks_text(*s);
            }
            match &**els {
                Some(eb) => {
                    let et = gen_stmt_or_block(eb)?;
                    out.append("else ");
                    out.append("{area_start();");
                    out.append(et.as_str());
                    out.append("area_end();}");
                    Ok(out)
                },
                None => Ok(out),
            }
        },
        Stmt::While(c, body) => {
            let ct = gen_expr(c)?;
            let bt = gen_stmt_or_block(body)?;
            let mut out = "while (".to_owned();
            out.append(ct.as_str());
            out.append(") ");
            out.append("{area_start();");
            out.append(bt.as_str());
            out.append("area_end();}");
            proof {
                lemma_while_chunks_text(*s);
            }
            Ok(out)
        },
        Stmt::Function(e) => {
            let et = gen_expr(e)?;
            let mut out = et;
            out.append(";");
            proof {
                lemma_chunks_text_one(stmt_chunks(*s)[0]);
            }
            Ok(out)
        },
        Stmt::Struct(_, _) => Ok(String::new()),
        Stmt::FunctionDef(_, _, _, _) => Ok(String::new()),
        Stmt::Use(_) => Ok(String::new()),
        Stmt::Block(_) => {
            let out = "\n".to_owned();
            proof {
                lemma_chunks_text_one(stmt_chunks(*s)[0]);
            }
            Ok(out)
        },
    }
}

/// The text of an `if` statement's chunks, spelled out.
proof fn lemma_if_chunks_text(s: Stmt)
    requires
        s is If,
    ensures
        (match s {
            Stmt::If(c, body, els) => {
                let head = seq![Chunk::Text("if ("@ + expr_text(*c) + ") "@), Chunk::Open]
                    + stmt_or_block_chunks(*body) + seq![Chunk::Close];
                &&& (match *els {
                    Some(eb) => chunks_text(stmt_chunks(s)) == (chunks_text(head) + ("else "@
                        + open_text()) + chunks_text(stmt_or_block_chunks(eb))) + close_text(),
                    None => chunks_text(stmt_chunks(s)) == chunks_text(head),
                })
                &&& chunks_text(head) == (("if ("@ + expr_text(*c) + ") "@) + open_text()
                    + chunks_text(stmt_or_block_chunks(*body))) + close_text()
            },
            _ => true,
        }),
{
    match s {
        Stmt::If(c, body, els) => {
            let headpair = seq![Chunk::Text("if ("@ + expr_text(*c) + ") "@), Chunk::Open];
            let head = headpair + stmt_or_block_chunks(*body) + seq![Chunk::Close];
            lemma_chunks_text_two(headpair[0], headpair[1]);
            assert(headpair =~= seq![headpair[0], headpair[1]]);
            lemma_chunks_text_concat(headpair, stmt_or_block_chunks(*body));
            lemma_chunks_text_concat(headpair + stmt_or_block_chunks(*body), seq![Chunk::Close]);
            lemma_chunks_text_one(Chunk::Close);
            assert(chunks_text(head) == (("if ("@ + expr_text(*c) + ") "@) + open_text()
                + chunks_text(stmt_or_block_chunks(*body))) + close_text());
            match *els {
                Some(eb) => {
                    let elspair = seq![Chunk::Text("else "@), Chunk::Open];
                    let elschunks = elspair + stmt_or_block_chunks(eb) + seq![Chunk::Close];
                    assert(stmt_chunks(s) == head + elschunks);
                    lemma_chunks_text_two(elspair[0], elspair[1]);
                    assert(elspair =~= seq![elspair[0], elspair[1]]);
                    lemma_chunks_text_concat(elspair, stmt_or_block_chunks(eb));
                    lemma_chunks_text_concat(
                        elspair + stmt_or_block_chunks(eb),
                        seq![Chunk::Close],
                    );
                    lemma_chunks_text_concat(head, elschunks);
                    assert(chunks_text(stmt_chunks(s)) =~= (chunks_text(head) + ("else "@
                        + open_text()) + chunks_text(stmt_or_block_chunks(eb))) + close_text());
                },
                None => {
                    assert(stmt_chunks(s) =~= head);
                },
            }
        },
        _ => {},
    }
}

/// The text of a `while` statement's chunks, spelled out.
proof fn lemma_while_chunks_text(s: Stmt)
    requires
        s is While,
    ensures
        (match s {
            Stmt::While(c, body) => chunks_text(stmt_chunks(s)) == (("while ("@ + expr_text(*c)
                + ") "@) + open_text() + chunks_text(stmt_or_block_chunks(*body))) + close_text(),
            _ => true,
        }),
{
    match s {
        Stmt::While(c, body) => {
            let headpair = seq![Chunk::Text("while ("@ + expr_text(*c) + ") "@), Chunk::Open];
            lemma_chunks_text_two(headpair[0], headpair[1]);
            assert(headpair =~= seq![headpair[0], headpair[1]]);
            lemma_chunks_text_concat(headpair, stmt_or_block_chunks(*body));
            lemma_chunks_text_concat(headpair + stmt_or_block_chunks(*body), seq![Chunk::Close]);
            lemma_chunks_text_one(Chunk::Close);
        },
        _ => {},
    }
}

/// Lowers a body: a block is lowered one statement at a time; any other
/// statement is lowered alone in place of a block.
fn gen_stmt_or_block(s: &Stmt) -> (r: Result<String, TranslateError>)
    ensures
        r matches Ok(t) ==> stmt_or_block_ok(*s) && t@ == chunks_text(stmt_or_block_chunks(*s)),
        r matches Err(err) ==> !stmt_or_block_ok(*s) && err == TranslateError::UnsupportedFeature,
    decreases *s, 3int,
{
    match s {
        Stmt::Block(ss) => {
            let mut out = String::new();
            let mut i: usize = 0;
            while i < ss.len()
                invariant
                    *s is Block,
                    s->Block_0 == *ss,
                    i <= ss.len(),
                    out@ == chunks_text(stmts_chunks(*ss, i as int)),
                    forall|j: int| 0 <= j < i ==> stmt_ok(#[trigger] ss@[j]),
                decreases ss.len() - i,
            {
                let st = gen_stmt(&ss[i])?;
                proof {
                    lemma_chunks_text_concat(stmts_chunks(*ss, i as int), stmt_chunks(ss@[i as int]));
                }
                out.append(st.as_str());
                i += 1;
            }
            Ok(out)
        },
        _ => gen_stmt(s),
    }
}

/// Turns a root tree into C source text. The root must be the single
/// block the parser produces.
pub struct CCodeGenerator {
    pub input: Stmt,
}

impl CCodeGenerator {
    /// A generator over the given root tree.
    pub fn new(input: Stmt) -> (r: CCodeGenerator)
        ensures
            r.input == input,
    {
        CCodeGenerator { input }
    }

    /// Generates the whole C output: the fixed runtime header include,
    /// one include per `use`, one typedef per `struct`, one C function
    /// per `func`, then every remaining top-level statement inside a
    /// synthesized `main` wrapped in one allocation-scope pair. Fails
    /// exactly when a constructor expression is reached, with the
    /// distinct unsupported-construct signal, and then emits nothing.
    pub fn generate(&mut self) -> (r: Result<String, TranslateError>)
        requires
            old(self).input is Block,
        ensures
            final(self).input == old(self).input,
            r matches Ok(t) ==> program_ok(final(self).input) && t@ == program_text(
                final(self).input,
            ),
            r matches Err(err) ==> !program_ok(final(self).input) && err
                == TranslateError::UnsupportedFeature,
    {
        let mut main = "#include \"area.h\"\n".to_owned();
        match &self.input {
            Stmt::Block(stmts) => {
                // outer pass: includes
                let mut i: usize = 0;
                while i < stmts.len()
                    invariant
                        i <= stmts@.len(),
                        main@ == header_text() + uses_text(*stmts, i as int),
                    decreases stmts@.len() - i,
                {
                    match &stmts[i] {
                        Stmt::Use(module) => {
                            main.append("#include \"");
                            main.append(module.as_str());
                            main.append(".h\"\n");
                        },
                        _ => {},
                    }
                    i += 1;
                }
                // outer pass: struct typedefs
                let mut i: usize = 0;
                while i < stmts.len()
                    invariant
                        i <= stmts@.len(),
                        main@ == header_text() + uses_text(*stmts, stmts@.len() as int)
                            + structs_text(*stmts, i as int),
                    decreases stmts@.len() - i,
                {
                    match &stmts[i] {
                        Stmt::Struct(name, fields) => {
                            main.append("typedef struct {");
                            let ft = gen_struct_fields(fields);
                            main.append(ft.as_str());
                            main.append("} ");
                            main.append(name.as_str());
                            main.append(";");
                        },
                        _ => {},
                    }
                    i += 1;
                }
                // outer pass: function definitions
                let ghost outer = header_text() + uses_text(*stmts, stmts@.len() as int)
                    + structs_text(*stmts, stmts@.len() as int);
                let mut i: usize = 0;
                while i < stmts.len()
                    invariant
                        self.input == old(self).input,
                        self.input is Block,
                        self.input->Block_0 == *stmts,
                        i <= stmts@.len(),
                        main@ == outer + chunks_text(funcs_chunks(*stmts, i as int)),
                        funcs_ok(*stmts, i as int),
                    decreases stmts@.len() - i,
                {
                    match &stmts[i] {
                        Stmt::FunctionDef(name, args, body, ret) => {
                            let ft = match convert_to_c_function(name, args, body, ret) {
                                Ok(ft) => ft,
                                Err(err) => {
                                    return Err(err);
                                },
                            };
                            proof {
                                lemma_chunks_text_concat(
                                    funcs_chunks(*stmts, i as int),
                                    funcdef_chunks(name@, *args, *(*body), *ret),
                                );
                            }
                            main.append(ft.as_str());
                        },
                        _ => {},
                    }
                    i += 1;
                }
                // body pass: everything else inside the synthesized entry point
                let ghost with_funcs = outer + chunks_text(
                    funcs_chunks(*stmts, stmts@.len() as int),
                );
                let mut code = String::new();
                let mut i: usize = 0;
                while i < stmts.len()
                    invariant
                        self.input == old(self).input,
                        self.input is Block,
                        self.input->Block_0 == *stmts,
                        i <= stmts@.len(),
                        code@ == chunks_text(stmts_chunks(*stmts, i as int)),
                        forall|j: int| 0 <= j < i ==> stmt_ok(#[trigger] stmts@[j]),
                    decreases stmts@.len() - i,
                {
                    let st = match gen_stmt(&stmts[i]) {
                        Ok(st) => st,
                        Err(err) => {
                            return Err(err);
                        },
                    };
                    proof {
                        lemma_chunks_text_concat(
                            stmts_chunks(*stmts, i as int),
                            stmt_chunks(stmts@[i as int]),
                        );
                    }
                    code.append(st.as_str());
                    i += 1;
                }
                main.append("void main() ");
                main.append("{area_start();");
                main.append(code.as_str());
                main.append("area_end();}");
                proof {
                    lemma_program_text(self.input);
                }
                Ok(main)
            },
            _ => {
                proof {
                    assert(false);
                }
                Err(TranslateError::UnsupportedFeature)
            },
        }
    }
}

/// The text of a whole program's chunks, spelled out.
proof fn lemma_program_text(prog: Stmt)
    requires
        prog is Block,
    ensures
        (match prog {
            Stmt::Block(ss) => program_text(prog) == ((((header_text() + uses_text(
                ss,
                ss.len() as int,
            ) + structs_text(ss, ss.len() as int)) + chunks_text(funcs_chunks(ss, ss.len() as int))
                + "void main() "@) + open_text() + chunks_text(stmts_chunks(ss, ss.len() as int)))
                + close_text()),
            _ => true,
        }),
{
    match prog {
        Stmt::Block(ss) => {
            let n = ss.len() as int;
            let first = seq![Chunk::Text(header_text() + uses_text(ss, n) + structs_text(ss, n))];
            let mainpair = seq![Chunk::Text("void main() "@), Chunk::Open];
            lemma_chunks_text_one(first[0]);
            assert(first =~= seq![first[0]]);
            lemma_chunks_text_concat(first, funcs_chunks(ss, n));
            lemma_chunks_text_two(mainpair[0], mainpair[1]);
            assert(mainpair =~= seq![mainpair[0], mainpair[1]]);
            lemma_chunks_text_concat(first + funcs_chunks(ss, n), mainpair);
            lemma_chunks_text_concat(first + funcs_chunks(ss, n) + mainpair, stmts_chunks(ss, n));
            lemma_chunks_text_concat(
                first + funcs_chunks(ss, n) + mainpair + stmts_chunks(ss, n),
                seq![Chunk::Close],
            );
            lemma_chunks_text_one(Chunk::Close);
        },
        _ => {},
    }
}

proof fn lemma_wn_stmt(s: Stmt)
    ensures
        well_nested(stmt_chunks(s)),
        well_nested(stmt_or_block_chunks(s)),
    decreases s, 5int, 0int,
{
    match s {
        Stmt::Assign(name, e) => {
            lemma_wn_text(name@ + " = "@ + expr_text(*e) + ";"@);
        },
        Stmt::VarDef(name, e, t) => {
            lemma_wn_text(type_text(t) + " "@ + name@ + " = "@ + expr_text(*e) + ";"@);
        },
        Stmt::Return(e) => {
            lemma_wn_text("return "@ + expr_text(*e) + ";"@);
        },
        Stmt::If(c, body, els) => {
            lemma_wn_stmt(*body);
            let head = seq![Chunk::Text("if ("@ + expr_text(*c) + ") "@), Chunk::Open]
                + stmt_or_block_chunks(*body) + seq![Chunk::Close];
            lemma_wn_headed_bracket("if ("@ + expr_text(*c) + ") "@, stmt_or_block_chunks(*body));
            match *els {
                Some(eb) => {
                    lemma_wn_stmt(eb);
                    lemma_wn_headed_bracket("else "@, stmt_or_block_chunks(eb));
                    lemma_wn_concat(
                        head,
                        seq![Chunk::Text("else "@), Chunk::Open] + stmt_or_block_chunks(eb)
                            + seq![Chunk::Close],
                    );
                },
                None => {
                    assert(stmt_chunks(s) =~= head);
                },
            }
        },
        Stmt::While(c, body) => {
            lemma_wn_stmt(*body);
            lemma_wn_headed_bracket(
                "while ("@ + expr_text(*c) + ") "@,
                stmt_or_block_chunks(*body),
            );
        },
        Stmt::Function(e) => {
            lemma_wn_text(expr_text(*e) + ";"@);
        },
        Stmt::Struct(_, _) => {
            lemma_wn_empty();
        },
        Stmt::FunctionDef(_, _, _, _) => {
            lemma_wn_empty();
        },
        Stmt::Use(_) => {
            lemma_wn_empty();
        },
        Stmt::Block(ss) => {
            lemma_wn_text("\n"@);
            lemma_wn_stmts(ss, ss.len() as int);
        },
    }
}

proof fn lemma_wn_stmts(ss: Vec<Stmt>, k: int)
    ensures
        well_nested(stmts_chunks(ss, k)),
    decreases ss, 6int, k,
{
    if k <= 0 || k > ss.len() {
        lemma_wn_empty();
    } else {
        lemma_wn_stmts(ss, k - 1);
        lemma_wn_stmt(ss[k - 1]);
        lemma_wn_concat(stmts_chunks(ss, k - 1), stmt_chunks(ss[k - 1]));
    }
}

proof fn lemma_wn_funcs(ss: Vec<Stmt>, k: int)
    ensures
        well_nested(funcs_chunks(ss, k)),
    decreases ss, 6int, k,
{
    if k <= 0 || k > ss.len() {
        lemma_wn_empty();
    } else {
        lemma_wn_funcs(ss, k - 1);
        match ss[k - 1] {
            Stmt::FunctionDef(name, args, body, ret) => {
                lemma_wn_stmt(*body);
                lemma_wn_headed_bracket(
                    type_text(ret) + " "@ + name@ + " ("@ + params_text(args, args.len() as int)
                        + ") "@,
                    stmt_or_block_chunks(*body),
                );
                lemma_wn_concat(funcs_chunks(ss, k - 1), funcdef_chunks(name@, args, *body, ret));
            },
            _ => {
                assert(funcs_chunks(ss, k) =~= funcs_chunks(ss, k - 1));
            },
        }
    }
}

/// Generated output always has well-nested scope markers: over the whole
/// chunk sequence of any root tree the scope-open and scope-close markers
/// balance, and at every prefix the count of opens is at least the count
/// of closes. Together with `generate`'s contract — the output text is
/// exactly the rendering of these chunks — every output wraps each braced
/// or implicit body in a matched allocation-scope pair, correctly nested
/// for every control-flow shape.
pub proof fn lemma_generated_scopes_well_nested(prog: Stmt)
    ensures
        well_nested(program_chunks(prog)),
{
    match prog {
        Stmt::Block(ss) => {
            let n = ss.len() as int;
            let first = seq![Chunk::Text(header_text() + uses_text(ss, n) + structs_text(ss, n))];
            let entry = seq![Chunk::Text("void main() "@), Chunk::Open] + stmts_chunks(ss, n)
                + seq![Chunk::Close];
            lemma_wn_text(header_text() + uses_text(ss, n) + structs_text(ss, n));
            lemma_wn_funcs(ss, n);
            lemma_wn_concat(first, funcs_chunks(ss, n));
            lemma_wn_stmts(ss, n);
            lemma_wn_headed_bracket("void main() "@, stmts_chunks(ss, n));
            lemma_wn_concat(first + funcs_chunks(ss, n), entry);
            assert(program_chunks(prog) =~= (first + funcs_chunks(ss, n)) + entry);
        },
        _ => {
            lemma_wn_text(header_text());
        },
    }
}

/// Renders the text between the braces of a struct typedef: each field
/// declaration followed by `; `; a struct with no fields renders `; `.
fn gen_struct_fields(fields: &Vec<TypedArgument>) -> (r: String)
    ensures
        r@ == struct_fields_text(*fields),
{
    if fields.len() == 0 {
        return "; ".to_owned();
    }
    let mut out = String::new();
    let mut i: usize = 0;
    while i < fields.len()
        invariant
            i <= fields@.len(),
            out@ == fields_cat_text(*fields, i as int),
        decreases fields@.len() - i,
    {
        let ft = field_decl(&fields[i]);
        out.append(ft.as_str());
        out.append("; ");
        i += 1;
    }
    out
}

/// Renders a comma-joined parameter list.
fn gen_params(args: &Vec<TypedArgument>) -> (r: String)
    ensures
        r@ == params_text(*args, args@.len() as int),
{
    let mut out = String::new();
    let mut i: usize = 0;
    while i < args.len()
        invariant
            i <= args@.len(),
            out@ == params_text(*args, i as int),
        decreases args@.len() - i,
    {
        if i > 0 {
            out.append(",");
        }
        let ft = field_decl(&args[i]);
        out.append(ft.as_str());
        i += 1;
    }
    out
}

/// Lowers one function definition to a C function: mapped return type,
/// name, mapped parameters, and the body inside one scope-marker pair.
fn convert_to_c_function(
    name: &String,
    args: &Vec<TypedArgument>,
    body: &Stmt,
    ret: &ValueType,
) -> (r: Result<String, TranslateError>)
    ensures
        r matches Ok(t) ==> stmt_or_block_ok(*body) && t@ == chunks_text(
            funcdef_chunks(name@, *args, *body, *ret),
        ),
        r matches Err(err) ==> !stmt_or_block_ok(*body) && err
            == TranslateError::UnsupportedFeature,
{
    let bt = gen_stmt_or_block(body)?;
    let mut out = convert_to_c_type(ret).to_owned();
    out.append(" ");
    out.append(name.as_str());
    out.append(" (");
    let ps = gen_params(args);
    out.append(ps.as_str());
    out.append(") ");
    out.append("{area_start();");
    out.append(bt.as_str());
    out.append("area_end();}");
    proof {
        let headpair = seq![
            Chunk::Text(type_text(*ret) + " "@ + name@ + " ("@ + params_text(*args, args@.len() as int) + ") "@),
            Chunk::Open,
        ];
        lemma_chunks_text_two(headpair[0], headpair[1]);
        assert(headpair =~= seq![headpair[0], headpair[1]]);
        lemma_chunks_text_concat(headpair, stmt_or_block_chunks(*body));
        lemma_chunks_text_concat(headpair + stmt_or_block_chunks(*body), seq![Chunk::Close]);
        lemma_chunks_text_one(Chunk::Close);
    }
    Ok(out)
}

} // verus!
