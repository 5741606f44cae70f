use vstd::prelude::*;
use vstd::utf8::{encode_utf8, valid_utf8};

use crate::numeral::{parse_signed, parse_unsigned, signed_numeral, unsigned_within};
use crate::program::{Constant, ErrorKind, FunctionDefinition, Program, VmError};

verus! {

/// The UTF-8 bytes of a line.
pub open spec fn line_bytes(line: String) -> Seq<u8> {
    encode_utf8(line@)
}

/// A constant as the text gives it: a number, or the UTF-8 bytes of a string.
pub enum Literal {
    Number(i64),
    Text(Seq<u8>),
}

/// A function block as the text gives it.
pub struct FunctionText {
    pub name: Seq<char>,
    pub has_out_var: bool,
    pub parameters: Seq<Seq<char>>,
    pub variables: Seq<Seq<char>>,
    pub instructions: Seq<u8>,
}

/// A whole program as the text gives it.
pub struct ProgramText {
    pub constants: Seq<Literal>,
    pub functions: Seq<FunctionText>,
    pub variables: Seq<Seq<char>>,
    pub instructions: Seq<u8>,
}

pub open spec fn header_spec(lines: Seq<String>, at: int, word: Seq<char>) -> bool {
    0 <= at < lines.len() && lines[at]@ == word
}

/// The item count on line `at`.
pub open spec fn count_spec(lines: Seq<String>, at: int) -> Option<nat> {
    if 0 <= at < lines.len() {
        unsigned_within(line_bytes(lines[at]), usize::MAX as int)
    } else {
        None
    }
}

/// Line `at` holds the header, line `at + 1` a count `n`, and `n` item lines
/// follow; the result is the count and the line after the block.
pub open spec fn block_spec(lines: Seq<String>, at: int, word: Seq<char>) -> Option<(nat, int)> {
    if header_spec(lines, at, word) {
        match count_spec(lines, at + 1) {
            Some(n) => if at + 2 + n <= lines.len() {
                Some((n, at + 2 + n))
            } else {
                None
            },
            None => None,
        }
    } else {
        None
    }
}

/// A block of names: each item line is a name.
pub open spec fn names_spec(lines: Seq<String>, at: int, word: Seq<char>) -> Option<
    (Seq<Seq<char>>, int),
> {
    match block_spec(lines, at, word) {
        Some((n, next)) => Some((Seq::new(n, |i: int| lines[at + 2 + i]@), next)),
        None => None,
    }
}

pub open spec fn byte_spec(line: String) -> Option<nat> {
    unsigned_within(line_bytes(line), 255)
}

/// An `instructions` block: each item line is a byte in decimal.
pub open spec fn code_spec(lines: Seq<String>, at: int) -> Option<(Seq<u8>, int)> {
    match block_spec(lines, at, "instructions"@) {
        Some((n, next)) => if forall|i: int| 0 <= i < n ==> (#[trigger] byte_spec(lines[at + 2 + i])) is Some {
            Some((Seq::new(n, |i: int| byte_spec(lines[at + 2 + i])->0 as u8), next))
        } else {
            None
        },
        None => None,
    }
}

/// The index of the first `:` in `b` from `from` on, or the length of `b`.
pub open spec fn first_colon(b: Seq<u8>, from: int) -> int
    decreases b.len() - from,
{
    if from < 0 || from >= b.len() {
        b.len() as int
    } else if b[from] == 58 {
        from
    } else {
        first_colon(b, from + 1)
    }
}

/// A constant line: `int:<decimal>` or `string:<text>`, the value ending at
/// the next `:` if there is one.
pub open spec fn constant_spec(b: Seq<u8>) -> Option<Literal> {
    let c = first_colon(b, 0);
    if c >= b.len() {
        None
    } else {
        let tag = b.subrange(0, c);
        let field = b.subrange(c + 1, first_colon(b, c + 1));
        if tag == seq![105u8, 110u8, 116u8] {
            match signed_numeral(field) {
                Some(v) => if i64::MIN <= v <= i64::MAX {
                    Some(Literal::Number(v as i64))
                } else {
                    None
                },
                None => None,
            }
        } else if tag == seq![115u8, 116u8, 114u8, 105u8, 110u8, 103u8] && valid_utf8(field) {
            Some(Literal::Text(field))
        } else {
            None
        }
    }
}

/// A `constants` block.
pub open spec fn constants_spec(lines: Seq<String>, at: int) -> Option<(Seq<Literal>, int)> {
    match block_spec(lines, at, "constants"@) {
        Some((n, next)) => if forall|i: int|
            0 <= i < n ==> (#[trigger] constant_spec(line_bytes(lines[at + 2 + i]))) is Some {
            Some((Seq::new(n, |i: int| constant_spec(line_bytes(lines[at + 2 + i]))->0), next))
        } else {
            None
        },
        None => None,
    }
}

/// The has-out-var line: `1` or `0`.
pub open spec fn flag_spec(lines: Seq<String>, at: int) -> Option<bool> {
    if !(0 <= at < lines.len()) {
        None
    } else if lines[at]@ == "1"@ {
        Some(true)
    } else if lines[at]@ == "0"@ {
        Some(false)
    } else {
        None
    }
}

/// The variables of a function begin with its parameters, and a function
/// with a result has a slot to take it from.
pub open spec fn slots_fit(has_out_var: bool, ps: Seq<Seq<char>>, vs: Seq<Seq<char>>) -> bool {
    &&& ps.len() <= vs.len()
    &&& vs.subrange(0, ps.len() as int) == ps
    &&& has_out_var ==> vs.len() > 0
}

/// A function block: name line, flag line, `parameters` block, `variables`
/// block, `instructions` block.
pub open spec fn function_spec(lines: Seq<String>, at: int) -> Option<(FunctionText, int)> {
    if !(0 <= at < lines.len()) {
        None
    } else {
        match flag_spec(lines, at + 1) {
            None => None,
            Some(flag) => match names_spec(lines, at + 2, "parameters"@) {
                None => None,
                Some((ps, p)) => match names_spec(lines, p, "variables"@) {
                    None => None,
                    Some((vs, v)) => if !slots_fit(flag, ps, vs) {
                        None
                    } else {
                        match code_spec(lines, v) {
                            None => None,
                            Some((code, next)) => Some(
                                (
                                    FunctionText {
                                        name: lines[at]@,
                                        has_out_var: flag,
                                        parameters: ps,
                                        variables: vs,
                                        instructions: code,
                                    },
                                    next,
                                ),
                            ),
                        }
                    },
                },
            },
        }
    }
}

/// `count` function blocks, one after the other, from line `at`.
pub open spec fn functions_from(lines: Seq<String>, at: int, count: nat) -> Option<
    (Seq<FunctionText>, int),
>
    decreases count,
{
    if count == 0 {
        Some((Seq::empty(), at))
    } else {
        match functions_from(lines, at, (count - 1) as nat) {
            None => None,
            Some((fs, mid)) => match function_spec(lines, mid) {
                None => None,
                Some((f, next)) => Some((fs.push(f), next)),
            },
        }
    }
}

/// A `functions` block.
pub open spec fn functions_spec(lines: Seq<String>, at: int) -> Option<(Seq<FunctionText>, int)> {
    if header_spec(lines, at, "functions"@) {
        match count_spec(lines, at + 1) {
            Some(n) => functions_from(lines, at + 2, n),
            None => None,
        }
    } else {
        None
    }
}

/// The four sections in order, and nothing after them.
pub open spec fn program_spec(lines: Seq<String>) -> Option<ProgramText> {
    match constants_spec(lines, 0) {
        None => None,
        Some((cs, a)) => match functions_spec(lines, a) {
            None => None,
            Some((fs, b)) => match names_spec(lines, b, "variables"@) {
                None => None,
                Some((vs, c)) => match code_spec(lines, c) {
                    None => None,
                    Some((code, d)) => if d == lines.len() {
                        Some(
                            ProgramText {
                                constants: cs,
                                functions: fs,
                                variables: vs,
                                instructions: code,
                            },
                        )
                    } else {
                        None
                    },
                },
            },
        },
    }
}

pub open spec fn names_match(v: Seq<String>, t: Seq<Seq<char>>) -> bool {
    v.len() == t.len() && forall|i: int| 0 <= i < v.len() ==> (#[trigger] v[i])@ == t[i]
}

pub open spec fn literal_match(c: Constant, l: Literal) -> bool {
    match (c, l) {
        (Constant::Number(a), Literal::Number(b)) => a == b,
        (Constant::Text(s), Literal::Text(t)) => encode_utf8(s@) == t,
        _ => false,
    }
}

pub open spec fn literals_match(v: Seq<Constant>, t: Seq<Literal>) -> bool {
    v.len() == t.len() && forall|i: int| 0 <= i < v.len() ==> literal_match(#[trigger] v[i], t[i])
}

pub open spec fn function_match(f: FunctionDefinition, t: FunctionText) -> bool {
    &&& f.name@ == t.name
    &&& f.has_out_var == t.has_out_var
    &&& names_match(f.parameters@, t.parameters)
    &&& names_match(f.variables@, t.variables)
    &&& f.instructions@ == t.instructions
}

pub open spec fn functions_match(v: Seq<FunctionDefinition>, t: Seq<FunctionText>) -> bool {
    v.len() == t.len() && forall|i: int| 0 <= i < v.len() ==> function_match(#[trigger] v[i], t[i])
}

pub open spec fn program_match(p: Program, t: ProgramText) -> bool {
    &&& literals_match(p.constants@, t.constants)
    &&& functions_match(p.functions@, t.functions)
    &&& names_match(p.variables@, t.variables)
    &&& p.instructions@ == t.instructions
}

/// What a parser of a section returns: the value and the next line when
/// the text holds the section, `MalformedProgram` when it does not.
pub open spec fn parsed<T, U>(
    spec_result: Option<(U, int)>,
    r: Result<(T, usize), VmError>,
    fits: spec_fn(T, U) -> bool,
) -> bool {
    match spec_result {
        Some((u, next)) => r matches Ok((t, n)) && fits(t, u) && n == next,
        None => r matches Err(e) && e.kind == ErrorKind::MalformedProgram,
    }
}

fn malformed(at: usize) -> (e: VmError)
    ensures
        e.kind == ErrorKind::MalformedProgram,
{
    VmError::new(ErrorKind::MalformedProgram, at)
}

fn bytes_of(line: &String) -> (r: &[u8])
    ensures
        r@ == line_bytes(*line),
{
    line.as_str().as_bytes()
}

/// Relies on `String::from_utf8`: it succeeds exactly on valid UTF-8, and
/// the string it gives holds those bytes.
#[verifier::external_body]
fn string_from_utf8(b: Vec<u8>) -> (r: Option<String>)
    ensures
        r is Some <==> valid_utf8(b@),
        r matches Some(s) ==> encode_utf8(s@) == b@,
{
    String::from_utf8(b).ok()
}

/// Checks that line `at` is the header `word`.
pub fn expect_header(lines: &[String], at: usize, word: &str) -> (r: Result<(), VmError>)
    ensures
        r is Ok <==> header_spec(lines@, at as int, word@),
        r matches Err(e) ==> e.kind == ErrorKind::MalformedProgram,
{
    if at >= lines.len() {
        return Err(malformed(at));
    }
    let expected = word.to_owned();
    if lines[at] == expected {
        Ok(())
    } else {
        Err(malformed(at))
    }
}

/// Reads the item count on line `at`.
fn parse_count(lines: &[String], at: usize) -> (r: Result<usize, VmError>)
    ensures
        match count_spec(lines@, at as int) {
            Some(n) => r == Ok::<usize, VmError>(n as usize),
            None => r matches Err(e) && e.kind == ErrorKind::MalformedProgram,
        },
{
    if at >= lines.len() {
        return Err(malformed(at));
    }
    match parse_unsigned(bytes_of(&lines[at]), usize::MAX as u64) {
        Some(n) => Ok(n as usize),
        None => Err(malformed(at)),
    }
}

/// Reads a header and a count, checking that the items fit in the text;
/// returns the count.
fn parse_block(lines: &[String], at: usize, word: &str) -> (r: Result<usize, VmError>)
    ensures
        match block_spec(lines@, at as int, word@) {
            Some((n, next)) => r == Ok::<usize, VmError>(n as usize) && next == at + 2 + n,
            None => r matches Err(e) && e.kind == ErrorKind::MalformedProgram,
        },
{
    let total = lines.len();
    match expect_header(lines, at, word) {
        Ok(()) => {},
        Err(e) => return Err(e),
    }
    let n = match parse_count(lines, at + 1) {
        Ok(n) => n,
        Err(e) => return Err(e),
    };
    if n > total - (at + 2) {
        return Err(malformed(at + 1));
    }
    Ok(n)
}

/// Reads a block of names under the header `word`.
pub fn parse_strings(word: &str, lines: &[String], at: usize) -> (r: Result<
    (Vec<String>, usize),
    VmError,
>)
    ensures
        parsed(names_spec(lines@, at as int, word@), r, |v: Vec<String>, t| names_match(v@, t)),
{
    if at >= lines.len() {
        return Err(malformed(at));
    }
    let n = match parse_block(lines, at, word) {
        Ok(n) => n,
        Err(e) => return Err(e),
    };
    let mut names: Vec<String> = Vec::new();
    let mut i: usize = 0;
    while i < n
        invariant
            i <= n,
            at + 2 + n <= lines@.len() <= usize::MAX,
            names@.len() == i,
            forall|j: int| 0 <= j < i ==> (#[trigger] names@[j])@ == lines@[at + 2 + j]@,
        decreases n - i,
    {
        names.push(lines[at + 2 + i].clone());
        i = i + 1;
    }
    Ok((names, at + 2 + n))
}

/// Reads a `variables` block.
pub fn parse_variables(lines: &[String], at: usize) -> (r: Result<(Vec<String>, usize), VmError>)
    ensures
        parsed(names_spec(lines@, at as int, "variables"@), r, |v: Vec<String>, t| names_match(v@, t)),
{
    parse_strings("variables", lines, at)
}

/// Reads an `instructions` block.
pub fn parse_instructions(lines: &[String], at: usize) -> (r: Result<(Vec<u8>, usize), VmError>)
    ensures
        parsed(code_spec(lines@, at as int), r, |v: Vec<u8>, t| v@ == t),
{
    if at >= lines.len() {
        return Err(malformed(at));
    }
    let n = match parse_block(lines, at, "instructions") {
        Ok(n) => n,
        Err(e) => return Err(e),
    };
    let mut code: Vec<u8> = Vec::new();
    let mut i: usize = 0;
    while i < n
        invariant
            i <= n,
            at + 2 + n <= lines@.len() <= usize::MAX,
            block_spec(lines@, at as int, "instructions"@) == Some((n as nat, at + 2 + n)),
            code@.len() == i,
            forall|j: int| 0 <= j < i ==> (#[trigger] byte_spec(lines@[at + 2 + j])) is Some,
            forall|j: int| 0 <= j < i ==> code@[j] == byte_spec(lines@[at + 2 + j])->0 as u8,
        decreases n - i,
    {
        match parse_unsigned(bytes_of(&lines[at + 2 + i]), 255) {
            Some(b) => code.push(b as u8),
            None => {
                assert(byte_spec(lines@[at + 2 + i as int]) is None);
                return Err(malformed(at + 2 + i));
            },
        }
        i = i + 1;
    }
    assert(code@ =~= Seq::new(n as nat, |j: int| byte_spec(lines@[at + 2 + j])->0 as u8));
    Ok((code, at + 2 + n))
}

/// Finds the first `:` from `from` on, or the length of `b`.
fn find_colon(b: &[u8], from: usize) -> (r: usize)
    requires
        from <= b@.len(),
    ensures
        r == first_colon(b@, from as int),
        from <= r <= b@.len(),
{
    let mut i = from;
    while i < b.len()
        invariant
            from <= i <= b@.len(),
            first_colon(b@, i as int) == first_colon(b@, from as int),
        decreases b@.len() - i,
    {
        if b[i] == 58 {
            return i;
        }
        i = i + 1;
    }
    i
}

/// Reads a constant line.
pub fn parse_constant(line: &String) -> (r: Option<Constant>)
    ensures
        match constant_spec(line_bytes(*line)) {
            Some(l) => r matches Some(c) && literal_match(c, l),
            None => r is None,
        },
{
    let b = bytes_of(line);
    let c = find_colon(b, 0);
    if c >= b.len() {
        return None;
    }
    let end = find_colon(b, c + 1);
    let ghost tag = b@.subrange(0, c as int);
    let ghost field = b@.subrange(c + 1, end as int);
    if c == 3 && b[0] == 105 && b[1] == 110 && b[2] == 116 {
        assert(tag =~= seq![105u8, 110u8, 116u8]);
        let mut digits: Vec<u8> = Vec::new();
        let mut i = c + 1;
        while i < end
            invariant
                c + 1 <= i <= end <= b@.len(),
                digits@ == b@.subrange(c + 1, i as int),
            decreases end - i,
        {
            digits.push(b[i]);
            i = i + 1;
            assert(digits@ =~= b@.subrange(c + 1, i as int));
        }
        match parse_signed(digits.as_slice()) {
            Some(v) => Some(Constant::Number(v)),
            None => None,
        }
    } else if c == 6 && b[0] == 115 && b[1] == 116 && b[2] == 114 && b[3] == 105 && b[4] == 110
        && b[5] == 103 {
        assert(tag =~= seq![115u8, 116u8, 114u8, 105u8, 110u8, 103u8]);
        assert(tag != seq![105u8, 110u8, 116u8]);
        let mut text: Vec<u8> = Vec::new();
        let mut i = c + 1;
        while i < end
            invariant
                c + 1 <= i <= end <= b@.len(),
                text@ == b@.subrange(c + 1, i as int),
            decreases end - i,
        {
            text.push(b[i]);
            i = i + 1;
            assert(text@ =~= b@.subrange(c + 1, i as int));
        }
        match string_from_utf8(text) {
            Some(s) => Some(Constant::Text(s)),
            None => None,
        }
    } else {
        assert(tag != seq![105u8, 110u8, 116u8]) by {
            if c == 3 {
                assert(tag[0] == b@[0] && tag[1] == b@[1] && tag[2] == b@[2]);
            } else {
                assert(tag.len() != 3);
            }
        }
        assert(tag != seq![115u8, 116u8, 114u8, 105u8, 110u8, 103u8]) by {
            if c == 6 {
                assert(tag[0] == b@[0] && tag[1] == b@[1] && tag[2] == b@[2]);
                assert(tag[3] == b@[3] && tag[4] == b@[4] && tag[5] == b@[5]);
            } else {
                assert(tag.len() != 6);
            }
        }
        None
    }
}

/// Reads a `constants` block.
pub fn parse_constants(lines: &[String], at: usize) -> (r: Result<(Vec<Constant>, usize), VmError>)
    ensures
        parsed(constants_spec(lines@, at as int), r, |v: Vec<Constant>, t| literals_match(v@, t)),
{
    if at >= lines.len() {
        return Err(malformed(at));
    }
    let n = match parse_block(lines, at, "constants") {
        Ok(n) => n,
        Err(e) => return Err(e),
    };
    let mut constants: Vec<Constant> = Vec::new();
    let mut i: usize = 0;
    while i < n
        invariant
            i <= n,
            at + 2 + n <= lines@.len() <= usize::MAX,
            block_spec(lines@, at as int, "constants"@) == Some((n as nat, at + 2 + n)),
            constants@.len() == i,
            forall|j: int|
                0 <= j < i ==> (#[trigger] constant_spec(line_bytes(lines@[at + 2 + j]))) is Some,
            forall|j: int|
                0 <= j < i ==> literal_match(
                    #[trigger] constants@[j],
                    constant_spec(line_bytes(lines@[at + 2 + j]))->0,
                ),
        decreases n - i,
    {
        match parse_constant(&lines[at + 2 + i]) {
            Some(c) => constants.push(c),
            None => return Err(malformed(at + 2 + i)),
        }
        i = i + 1;
    }
    Ok((constants, at + 2 + n))
}

/// Reads the has-out-var line of a function block.
fn parse_flag(lines: &[String], at: usize) -> (r: Result<bool, VmError>)
    ensures
        match flag_spec(lines@, at as int) {
            Some(b) => r == Ok::<bool, VmError>(b),
            None => r matches Err(e) && e.kind == ErrorKind::MalformedProgram,
        },
{
    if at >= lines.len() {
        return Err(malformed(at));
    }
    let line = &lines[at];
    if *line == "1".to_owned() {
        Ok(true)
    } else if *line == "0".to_owned() {
        Ok(false)
    } else {
        Err(malformed(at))
    }
}

/// Reads one function block.
#[verifier::loop_isolation(false)]
pub fn parse_function(lines: &[String], at: usize) -> (r: Result<(FunctionDefinition, usize), VmError>)
    ensures
        parsed(function_spec(lines@, at as int), r, |f: FunctionDefinition, t| function_match(f, t)),
{
    if at >= lines.len() {
        return Err(malformed(at));
    }
    let name = lines[at].clone();
    let has_out_var = match parse_flag(lines, at + 1) {
        Ok(b) => b,
        Err(e) => return Err(e),
    };
    let (parameters, p) = match parse_strings("parameters", lines, at + 2) {
        Ok(x) => x,
        Err(e) => return Err(e),
    };
    let (variables, v) = match parse_variables(lines, p) {
        Ok(x) => x,
        Err(e) => return Err(e),
    };
    let ghost ps = names_spec(lines@, at + 2, "parameters"@).unwrap().0;
    let ghost vs = names_spec(lines@, p as int, "variables"@).unwrap().0;
    if parameters.len() > variables.len() || (has_out_var && variables.len() == 0) {
        return Err(malformed(p));
    }
    let mut i: usize = 0;
    while i < parameters.len()
        invariant
            i <= parameters@.len() <= variables@.len(),
            names_match(parameters@, ps),
            names_match(variables@, vs),
            forall|j: int| 0 <= j < i ==> vs[j] == ps[j],
        decreases parameters@.len() - i,
    {
        if variables[i] != parameters[i] {
            assert(vs.subrange(0, ps.len() as int)[i as int] != ps[i as int]);
            return Err(malformed(p));
        }
        i = i + 1;
    }
    assert(vs.subrange(0, ps.len() as int) =~= ps);
    let (instructions, next) = match parse_instructions(lines, v) {
        Ok(x) => x,
        Err(e) => return Err(e),
    };
    Ok((FunctionDefinition { name, has_out_var, parameters, variables, instructions }, next))
}

proof fn lemma_functions_stop(lines: Seq<String>, at: int, k: nat, m: nat)
    requires
        k <= m,
        functions_from(lines, at, k) is None,
    ensures
        functions_from(lines, at, m) is None,
    decreases m,
{
    if k < m {
        lemma_functions_stop(lines, at, k, (m - 1) as nat);
    }
}

/// Reads a `functions` block.
pub fn parse_functions(lines: &[String], at: usize) -> (r: Result<(Vec<FunctionDefinition>, usize), VmError>)
    ensures
        parsed(
            functions_spec(lines@, at as int),
            r,
            |v: Vec<FunctionDefinition>, t| functions_match(v@, t),
        ),
{
    if at >= lines.len() {
        return Err(malformed(at));
    }
    match expect_header(lines, at, "functions") {
        Ok(()) => {},
        Err(e) => return Err(e),
    }
    let n = match parse_count(lines, at + 1) {
        Ok(n) => n,
        Err(e) => return Err(e),
    };
    let mut functions: Vec<FunctionDefinition> = Vec::new();
    let mut cur: usize = at + 2;
    let ghost mut texts: Seq<FunctionText> = Seq::empty();
    let mut i: usize = 0;
    while i < n
        invariant
            i <= n,
            count_spec(lines@, at + 1) == Some(n as nat),
            functions_from(lines@, at + 2, i as nat) == Some((texts, cur as int)),
            functions_match(functions@, texts),
        decreases n - i,
    {
        match parse_function(lines, cur) {
            Ok((f, next)) => {
                proof {
                    let t = function_spec(lines@, cur as int).unwrap().0;
                    texts = texts.push(t);
                }
                functions.push(f);
                cur = next;
            },
            Err(e) => {
                proof {
                    lemma_functions_stop(lines@, at + 2, (i + 1) as nat, n as nat);
                }
                return Err(e);
            },
        }
        i = i + 1;
    }
    Ok((functions, cur))
}

/// Reads a whole program: the `constants`, `functions`, `variables` and
/// `instructions` sections in that order, with no line after them.
pub fn load(lines: &[String]) -> (r: Result<Program, VmError>)
    ensures
        match program_spec(lines@) {
            Some(t) => r matches Ok(p) && program_match(p, t),
            None => r matches Err(e) && e.kind == ErrorKind::MalformedProgram,
        },
{
    let (constants, a) = match parse_constants(lines, 0) {
        Ok(x) => x,
        Err(e) => return Err(e),
    };
    let (functions, b) = match parse_functions(lines, a) {
        Ok(x) => x,
        Err(e) => return Err(e),
    };
    let (variables, c) = match parse_variables(lines, b) {
        Ok(x) => x,
        Err(e) => return Err(e),
    };
    let (instructions, d) = match parse_instructions(lines, c) {
        Ok(x) => x,
        Err(e) => return Err(e),
    };
    if d != lines.len() {
        return Err(malformed(d));
    }
    Ok(Program { constants, functions, variables, instructions })
}

} // verus!
