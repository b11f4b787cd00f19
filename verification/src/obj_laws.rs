//! What holds of object files: the text that `ObjWriter` writes depends only on the
//! tables and the code, not on the order in which the tables were filled; and
//! `ObjProgram` reads it back into the same constant table, the same functions and
//! the same quadruples.
use vstd::prelude::*;

use crate::directory::FuncEntry;
use crate::name_map::{distinct_names, last_index, lemma_distinct_last_index, lemma_last_index, map_of};
use crate::obj_reader::{
    constant_line_spec, function_line_spec, is_header, load_line, load_lines, load_start,
    number_field, params_field, quadruple_line_spec, record_of, FuncRecord, LoadState,
};
use crate::obj_writer::{
    const_content, const_keys, const_lines, constants_text, func_content, func_keys, func_lines,
    functions_text, is_perm, key_lt, lemma_key_lt_transitive, lemma_lex_lt_irreflexive,
    lemma_lex_lt_total, object_text, occurs_in, quad_content, quad_lines, quadruples_text, sorted_by,
};
use crate::quadruples::QuadV;
use crate::text::{
    all_digits, decimal, is_digit, join_lines, lacks, lemma_decimal_digits, lemma_digits_lack,
    lemma_join_lines_concat, lemma_parse_decimal, lemma_split_on_concat, lemma_split_on_lacks,
    lemma_text_lines_join, parse_usize_spec, plain_line, seq_join, split_on, strs, text_lines,
};

verus! {

/// The texts of the lines of the constants in `order`.
pub open spec fn const_contents(pairs: Seq<(String, usize)>, order: Seq<usize>) -> Seq<Seq<char>> {
    order.map_values(|i: usize| const_content(pairs[i as int]))
}

/// The texts of the lines of the functions in `order`.
pub open spec fn func_contents(pairs: Seq<(String, FuncEntry)>, order: Seq<usize>) -> Seq<Seq<char>> {
    order.map_values(|i: usize| func_content(pairs[i as int]))
}

/// The texts of the lines of the quadruples of `code`.
pub open spec fn quad_contents(code: Seq<QuadV>) -> Seq<Seq<char>> {
    Seq::new(code.len(), |i: int| quad_content(i as nat, code[i]))
}

/// The lines of an object file.
pub open spec fn object_lines(
    constants: Seq<(String, usize)>,
    corder: Seq<usize>,
    functions: Seq<(String, FuncEntry)>,
    forder: Seq<usize>,
    code: Seq<QuadV>,
) -> Seq<Seq<char>> {
    seq!["%%CONSTANTS"@] + const_contents(constants, corder) + seq!["%%FUNCTIONS"@] + func_contents(
        functions,
        forder,
    ) + seq!["%%QUADRUPLES"@] + quad_contents(code) + seq!["%%END"@]
}

proof fn lemma_const_lines(pairs: Seq<(String, usize)>, order: Seq<usize>)
    ensures
        const_lines(pairs, order) == join_lines(const_contents(pairs, order)),
    decreases order.len(),
{
    if order.len() > 0 {
        lemma_const_lines(pairs, order.drop_last());
        assert(const_contents(pairs, order).drop_last() =~= const_contents(pairs, order.drop_last()));
        assert(const_lines(pairs, order) =~= join_lines(const_contents(pairs, order)));
    } else {
        assert(const_contents(pairs, order) =~= Seq::<Seq<char>>::empty());
    }
}

proof fn lemma_func_lines(pairs: Seq<(String, FuncEntry)>, order: Seq<usize>)
    ensures
        func_lines(pairs, order) == join_lines(func_contents(pairs, order)),
    decreases order.len(),
{
    if order.len() > 0 {
        lemma_func_lines(pairs, order.drop_last());
        assert(func_contents(pairs, order).drop_last() =~= func_contents(pairs, order.drop_last()));
        assert(func_lines(pairs, order) =~= join_lines(func_contents(pairs, order)));
    } else {
        assert(func_contents(pairs, order) =~= Seq::<Seq<char>>::empty());
    }
}

proof fn lemma_quad_lines(code: Seq<QuadV>)
    ensures
        quad_lines(code) == join_lines(quad_contents(code)),
    decreases code.len(),
{
    if code.len() > 0 {
        lemma_quad_lines(code.drop_last());
        assert(quad_contents(code).drop_last() =~= quad_contents(code.drop_last()));
        assert(quad_lines(code) =~= join_lines(quad_contents(code)));
    } else {
        assert(quad_contents(code) =~= Seq::<Seq<char>>::empty());
    }
}

proof fn lemma_join_one(l: Seq<char>)
    ensures
        join_lines(seq![l]) == l + "\n"@,
{
    let one = seq![l];
    assert(one.drop_last() =~= Seq::<Seq<char>>::empty());
    assert(join_lines(Seq::<Seq<char>>::empty()) == Seq::<char>::empty());
    assert(join_lines(one) == join_lines(one.drop_last()) + one.last() + "\n"@);
    assert(join_lines(one) =~= l + "\n"@);
}

/// The object file is its lines, each followed by a newline.
proof fn lemma_object_text(
    constants: Seq<(String, usize)>,
    corder: Seq<usize>,
    functions: Seq<(String, FuncEntry)>,
    forder: Seq<usize>,
    code: Seq<QuadV>,
)
    ensures
        object_text(constants, corder, functions, forder, code) == join_lines(
            object_lines(constants, corder, functions, forder, code),
        ),
{
    reveal_strlit("%%CONSTANTS");
    reveal_strlit("%%FUNCTIONS");
    reveal_strlit("%%QUADRUPLES");
    reveal_strlit("%%END");
    reveal_strlit("%%CONSTANTS\n");
    reveal_strlit("%%FUNCTIONS\n");
    reveal_strlit("%%QUADRUPLES\n");
    reveal_strlit("%%END\n");
    reveal_strlit("\n");
    let h1 = seq!["%%CONSTANTS"@];
    let h2 = seq!["%%FUNCTIONS"@];
    let h3 = seq!["%%QUADRUPLES"@];
    let h4 = seq!["%%END"@];
    let cc = const_contents(constants, corder);
    let fc = func_contents(functions, forder);
    let qc = quad_contents(code);
    lemma_const_lines(constants, corder);
    lemma_func_lines(functions, forder);
    lemma_quad_lines(code);
    lemma_join_one("%%CONSTANTS"@);
    lemma_join_one("%%FUNCTIONS"@);
    lemma_join_one("%%QUADRUPLES"@);
    lemma_join_one("%%END"@);
    lemma_join_lines_concat(h1, cc);
    lemma_join_lines_concat(h1 + cc, h2);
    lemma_join_lines_concat(h1 + cc + h2, fc);
    lemma_join_lines_concat(h1 + cc + h2 + fc, h3);
    lemma_join_lines_concat(h1 + cc + h2 + fc + h3, qc);
    lemma_join_lines_concat(h1 + cc + h2 + fc + h3 + qc, h4);
    assert("%%CONSTANTS\n"@ =~= "%%CONSTANTS"@ + "\n"@);
    assert("%%FUNCTIONS\n"@ =~= "%%FUNCTIONS"@ + "\n"@);
    assert("%%QUADRUPLES\n"@ =~= "%%QUADRUPLES"@ + "\n"@);
    assert("%%END\n"@ =~= "%%END"@ + "\n"@);
    assert(object_text(constants, corder, functions, forder, code) =~= join_lines(
        object_lines(constants, corder, functions, forder, code),
    ));
}

/// `c` lacks in `a + b` when it lacks in both.
proof fn lemma_lacks_concat(a: Seq<char>, b: Seq<char>, c: char)
    requires
        lacks(a, c),
        lacks(b, c),
    ensures
        lacks(a + b, c),
{
    assert forall|i: int| 0 <= i < (a + b).len() implies #[trigger] (a + b)[i] != c by {
        if i < a.len() {
            assert((a + b)[i] == a[i]);
        } else {
            assert((a + b)[i] == b[i - a.len()]);
        }
    }
}

/// A field followed by a bar and a field that lacks the bar splits there.
proof fn lemma_split_field(prefix: Seq<char>, field: Seq<char>)
    requires
        lacks(field, '|'),
    ensures
        split_on(prefix + "|"@ + field, '|') == split_on(prefix, '|').push(field),
{
    reveal_strlit("|");
    assert(prefix + "|"@ + field =~= prefix + seq!['|'] + field);
    lemma_split_on_concat(prefix, field, '|');
    lemma_split_on_lacks(field, '|');
    assert(split_on(prefix, '|') + seq![field] =~= split_on(prefix, '|').push(field));
}

/// `prefix + "|" + field` lacks `c` when both parts do and `c` is not the bar.
proof fn lemma_lacks_field(prefix: Seq<char>, field: Seq<char>, c: char)
    requires
        lacks(prefix, c),
        lacks(field, c),
        c != '|',
    ensures
        lacks(prefix + "|"@ + field, c),
{
    reveal_strlit("|");
    assert(lacks("|"@, c));
    lemma_lacks_concat(prefix, "|"@, c);
    lemma_lacks_concat(prefix + "|"@, field, c);
}

/// The decimal text of a number lacks every character that is no digit.
proof fn lemma_decimal_lacks(n: nat, c: char)
    requires
        !is_digit(c),
    ensures
        lacks(decimal(n), c),
{
    lemma_decimal_digits(n);
    lemma_digits_lack(decimal(n), c);
}

/// A constant that can be written and read back: its value holds no bar and no
/// newline, and does not start with `%%`.
pub open spec fn writable_constant(p: (String, usize)) -> bool {
    &&& lacks(p.0@, '|')
    &&& lacks(p.0@, '\n')
    &&& !is_header(p.0@)
}

/// A list of parameter types that can be written and read back: no type holds a
/// bar, a newline or a comma, the list is not one empty type, and the last type does
/// not end with a carriage return.
pub open spec fn writable_params(l: Seq<Seq<char>>) -> bool {
    &&& forall|i: int| 0 <= i < l.len() ==> lacks(#[trigger] l[i], '|') && lacks(l[i], '\n') && lacks(l[i], ',')
    &&& !(l.len() == 1 && l[0].len() == 0)
    &&& l.len() > 0 ==> !(l.last().len() > 0 && l.last().last() == '\r')
}

/// A function that can be written and read back: its name and type hold no bar and
/// no newline, its name does not start with `%%`, and its parameter types can be
/// written.
pub open spec fn writable_function(p: (String, FuncEntry)) -> bool {
    &&& lacks(p.0@, '|')
    &&& lacks(p.0@, '\n')
    &&& !is_header(p.0@)
    &&& lacks(p.1.func_type@, '|')
    &&& lacks(p.1.func_type@, '\n')
    &&& writable_params(strs(p.1.parameters@))
}

/// A quadruple that can be written and read back: no field holds a bar or a newline,
/// and its result does not end with a carriage return.
pub open spec fn writable_quad(q: QuadV) -> bool {
    &&& lacks(q.0, '|') && lacks(q.0, '\n')
    &&& lacks(q.1, '|') && lacks(q.1, '\n')
    &&& lacks(q.2, '|') && lacks(q.2, '\n')
    &&& lacks(q.3, '|') && lacks(q.3, '\n')
    &&& !(q.3.len() > 0 && q.3.last() == '\r')
}

/// A line that starts with `s` followed by a bar opens no section when `s` does
/// not start with `%%`.
proof fn lemma_not_header(s: Seq<char>, rest: Seq<char>)
    requires
        !is_header(s),
    ensures
        !is_header(s + "|"@ + rest),
{
    reveal_strlit("|");
    let l = s + "|"@ + rest;
    if s.len() >= 2 {
        assert(l[0] == s[0] && l[1] == s[1]);
    } else if s.len() == 1 {
        assert(l[1] == '|');
    } else {
        assert(l[0] == '|');
    }
}

/// A constant's line reads back as the constant.
proof fn lemma_constant_line(p: (String, usize))
    requires
        writable_constant(p),
    ensures
        constant_line_spec(const_content(p)) == Ok::<(Seq<char>, usize), Seq<char>>((p.0@, p.1)),
        const_content(p).len() > 0,
        !is_header(const_content(p)),
        plain_line(const_content(p)),
{
    let d = decimal(p.1 as nat);
    lemma_decimal_digits(p.1 as nat);
    lemma_decimal_lacks(p.1 as nat, '|');
    lemma_decimal_lacks(p.1 as nat, '\n');
    lemma_split_field(p.0@, d);
    lemma_split_on_lacks(p.0@, '|');
    lemma_parse_decimal(p.1);
    lemma_not_header(p.0@, d);
    lemma_lacks_field(p.0@, d, '\n');
    let c = const_content(p);
    assert(c.last() == d.last());
    assert(is_digit(d[d.len() - 1]));
}

/// The parameter types, joined by commas, read back as themselves.
proof fn lemma_split_params(l: Seq<Seq<char>>)
    requires
        l.len() >= 1,
        forall|i: int| 0 <= i < l.len() ==> lacks(#[trigger] l[i], ','),
    ensures
        split_on(seq_join(l, ","@), ',') == l,
    decreases l.len(),
{
    reveal_strlit(",");
    if l.len() == 1 {
        lemma_split_on_lacks(l[0], ',');
        assert(l =~= seq![l[0]]);
    } else {
        let r = l.drop_last();
        assert(forall|i: int| 0 <= i < r.len() ==> #[trigger] r[i] == l[i]);
        lemma_split_params(r);
        assert(lacks(l.last(), ','));
        assert(seq_join(l, ","@) =~= seq_join(r, ","@) + seq![','] + l.last());
        lemma_split_on_concat(seq_join(r, ","@), l.last(), ',');
        lemma_split_on_lacks(l.last(), ',');
        assert(r + seq![l.last()] =~= l);
    }
}

/// Parameter types joined by commas lack what each of them lacks, besides the comma.
proof fn lemma_join_lacks(l: Seq<Seq<char>>, c: char)
    requires
        forall|i: int| 0 <= i < l.len() ==> lacks(#[trigger] l[i], c),
        c != ',',
    ensures
        lacks(seq_join(l, ","@), c),
    decreases l.len(),
{
    reveal_strlit(",");
    if l.len() == 0 {
    } else if l.len() == 1 {
        assert(lacks(l[0], c));
    } else {
        let r = l.drop_last();
        assert(forall|i: int| 0 <= i < r.len() ==> #[trigger] r[i] == l[i]);
        lemma_join_lacks(r, c);
        assert(lacks(l.last(), c));
        assert(lacks(","@, c));
        lemma_lacks_concat(seq_join(r, ","@), ","@, c);
        lemma_lacks_concat(seq_join(r, ","@) + ","@, l.last(), c);
    }
}

/// The parameter field of a function's line reads back as its parameter types, and
/// the line does not end with a carriage return there.
proof fn lemma_params_field(l: Seq<Seq<char>>)
    requires
        writable_params(l),
    ensures
        params_field(seq_join(l, ","@)) == l,
        lacks(seq_join(l, ","@), '|'),
        lacks(seq_join(l, ","@), '\n'),
        !(seq_join(l, ","@).len() > 0 && seq_join(l, ","@).last() == '\r'),
{
    reveal_strlit(",");
    assert forall|i: int| 0 <= i < l.len() implies lacks(#[trigger] l[i], ',') && lacks(l[i], '|') && lacks(l[i], '\n') by {}
    lemma_join_lacks(l, '|');
    lemma_join_lacks(l, '\n');
    let j = seq_join(l, ","@);
    if l.len() == 0 {
        assert(params_field(j) =~= l);
    } else if l.len() == 1 {
        lemma_split_params(l);
        assert(j == l[0]);
    } else {
        lemma_split_params(l);
        let r = l.drop_last();
        assert(j =~= seq_join(r, ","@) + ","@ + l.last());
        assert(j.len() > 0);
        if l.last().len() > 0 {
            assert(j.last() == l.last().last());
        } else {
            assert(j.last() == ',');
        }
    }
}

/// The eight fields of a function's line.
proof fn lemma_func_fields(fields: Seq<Seq<char>>)
    requires
        fields.len() == 8,
        forall|i: int| 0 <= i < 8 ==> lacks(#[trigger] fields[i], '|'),
    ensures
        split_on(join_fields(fields), '|') == fields,
{
    let c1 = fields[0];
    let c2 = c1 + "|"@ + fields[1];
    let c3 = c2 + "|"@ + fields[2];
    let c4 = c3 + "|"@ + fields[3];
    let c5 = c4 + "|"@ + fields[4];
    let c6 = c5 + "|"@ + fields[5];
    let c7 = c6 + "|"@ + fields[6];
    let c8 = c7 + "|"@ + fields[7];
    assert(lacks(fields[0], '|') && lacks(fields[1], '|') && lacks(fields[2], '|') && lacks(fields[3], '|'));
    assert(lacks(fields[4], '|') && lacks(fields[5], '|') && lacks(fields[6], '|') && lacks(fields[7], '|'));
    lemma_split_on_lacks(c1, '|');
    lemma_split_field(c1, fields[1]);
    lemma_split_field(c2, fields[2]);
    lemma_split_field(c3, fields[3]);
    lemma_split_field(c4, fields[4]);
    lemma_split_field(c5, fields[5]);
    lemma_split_field(c6, fields[6]);
    lemma_split_field(c7, fields[7]);
    assert(split_on(c8, '|') =~= fields);
}

/// Eight fields with a bar between each two.
pub open spec fn join_fields(f: Seq<Seq<char>>) -> Seq<char> {
    f[0] + "|"@ + f[1] + "|"@ + f[2] + "|"@ + f[3] + "|"@ + f[4] + "|"@ + f[5] + "|"@ + f[6] + "|"@ + f[7]
}

/// Eight fields joined by bars lack a newline when each does.
proof fn lemma_func_fields_lack(f: Seq<Seq<char>>)
    requires
        f.len() == 8,
        forall|i: int| 0 <= i < 8 ==> lacks(#[trigger] f[i], '\n'),
    ensures
        lacks(join_fields(f), '\n'),
{
    assert(lacks(f[0], '\n') && lacks(f[1], '\n') && lacks(f[2], '\n') && lacks(f[3], '\n'));
    assert(lacks(f[4], '\n') && lacks(f[5], '\n') && lacks(f[6], '\n') && lacks(f[7], '\n'));
    let c2 = f[0] + "|"@ + f[1];
    let c3 = c2 + "|"@ + f[2];
    let c4 = c3 + "|"@ + f[3];
    let c5 = c4 + "|"@ + f[4];
    let c6 = c5 + "|"@ + f[5];
    let c7 = c6 + "|"@ + f[6];
    lemma_lacks_field(f[0], f[1], '\n');
    lemma_lacks_field(c2, f[2], '\n');
    lemma_lacks_field(c3, f[3], '\n');
    lemma_lacks_field(c4, f[4], '\n');
    lemma_lacks_field(c5, f[5], '\n');
    lemma_lacks_field(c6, f[6], '\n');
    lemma_lacks_field(c7, f[7], '\n');
}

/// The fields of a function's line.
pub open spec fn func_fields(p: (String, FuncEntry)) -> Seq<Seq<char>> {
    let e = p.1;
    seq![
        p.0@,
        e.func_type@,
        decimal(e.starting_quad as nat),
        decimal(e.int_count as nat),
        decimal(e.float_count as nat),
        decimal(e.temp_int_count as nat),
        decimal(e.temp_float_count as nat),
        seq_join(strs(e.parameters@), ","@),
    ]
}

/// A line split into these fields reads as a function with these numbers.
proof fn lemma_function_line_parse(c: Seq<char>, f: Seq<Seq<char>>, e: FuncEntry)
    requires
        f.len() == 8,
        split_on(c, '|') == f,
        f[1] == e.func_type@,
        parse_usize_spec(f[2]) == Some(e.starting_quad),
        parse_usize_spec(f[3]) == Some(e.int_count),
        parse_usize_spec(f[4]) == Some(e.float_count),
        parse_usize_spec(f[5]) == Some(e.temp_int_count),
        parse_usize_spec(f[6]) == Some(e.temp_float_count),
        params_field(f[7]) == strs(e.parameters@),
    ensures
        function_line_spec(c) == Ok::<(Seq<char>, FuncRecord), Seq<char>>((f[0], record_of(e))),
{
}

/// The fields of a function's line lack the bar and the newline.
proof fn lemma_func_fields_plain(p: (String, FuncEntry))
    requires
        writable_function(p),
    ensures
        forall|i: int| 0 <= i < 8 ==> lacks(#[trigger] func_fields(p)[i], '|') && lacks(func_fields(p)[i], '\n'),
        func_fields(p).len() == 8,
{
    let e = p.1;
    let f = func_fields(p);
    lemma_params_field(strs(e.parameters@));
    lemma_decimal_lacks(e.starting_quad as nat, '|');
    lemma_decimal_lacks(e.starting_quad as nat, '\n');
    lemma_decimal_lacks(e.int_count as nat, '|');
    lemma_decimal_lacks(e.int_count as nat, '\n');
    lemma_decimal_lacks(e.float_count as nat, '|');
    lemma_decimal_lacks(e.float_count as nat, '\n');
    lemma_decimal_lacks(e.temp_int_count as nat, '|');
    lemma_decimal_lacks(e.temp_int_count as nat, '\n');
    lemma_decimal_lacks(e.temp_float_count as nat, '|');
    lemma_decimal_lacks(e.temp_float_count as nat, '\n');
}

/// A function's line opens no section and reads as one line.
#[verifier::rlimit(60)]
proof fn lemma_function_line_plain(p: (String, FuncEntry))
    requires
        writable_function(p),
    ensures
        func_content(p).len() > 0,
        !is_header(func_content(p)),
        plain_line(func_content(p)),
{
    let f = func_fields(p);
    let c = func_content(p);
    lemma_params_field(strs(p.1.parameters@));
    lemma_func_fields_plain(p);
    lemma_func_fields_lack(f);
    let rest = f[1] + "|"@ + f[2] + "|"@ + f[3] + "|"@ + f[4] + "|"@ + f[5] + "|"@ + f[6] + "|"@ + f[7];
    assert(c == join_fields(f));
    assert(join_fields(f) =~= f[0] + "|"@ + rest);
    lemma_not_header(p.0@, rest);
    reveal_strlit("|");
    if f[7].len() > 0 {
        assert(c.last() == f[7].last());
    } else {
        assert(c.last() == '|');
    }
}

/// A function's line reads back as the function's name and record.
#[verifier::spinoff_prover]
proof fn lemma_function_line(p: (String, FuncEntry))
    requires
        writable_function(p),
    ensures
        function_line_spec(func_content(p)) == Ok::<(Seq<char>, FuncRecord), Seq<char>>((p.0@, record_of(p.1))),
        func_content(p).len() > 0,
        !is_header(func_content(p)),
        plain_line(func_content(p)),
{
    let e = p.1;
    let f = func_fields(p);
    let c = func_content(p);
    lemma_function_line_plain(p);
    assert(split_on(c, '|') == f) by {
        assert(c =~= join_fields(f));
        lemma_func_fields_plain(p);
        lemma_func_fields(f);
    }
    assert(params_field(f[7]) == strs(e.parameters@)) by {
        lemma_params_field(strs(e.parameters@));
    }
    lemma_parse_decimal(e.starting_quad);
    lemma_parse_decimal(e.int_count);
    lemma_parse_decimal(e.float_count);
    lemma_parse_decimal(e.temp_int_count);
    lemma_parse_decimal(e.temp_float_count);
    lemma_function_line_parse(c, f, e);
}

/// The line of quadruple number `i` reads back as the quadruple, where `i` is the
/// index expected.
proof fn lemma_quad_line(i: usize, q: QuadV)
    requires
        writable_quad(q),
    ensures
        quadruple_line_spec(quad_content(i as nat, q), i as nat) == Ok::<QuadV, Seq<char>>(q),
        quad_content(i as nat, q).len() > 0,
        !is_header(quad_content(i as nat, q)),
        plain_line(quad_content(i as nat, q)),
{
    let d = decimal(i as nat);
    lemma_decimal_digits(i as nat);
    lemma_decimal_lacks(i as nat, '|');
    lemma_decimal_lacks(i as nat, '\n');
    lemma_parse_decimal(i);
    let c1 = d;
    let c2 = c1 + "|"@ + q.0;
    let c3 = c2 + "|"@ + q.1;
    let c4 = c3 + "|"@ + q.2;
    let c5 = c4 + "|"@ + q.3;
    assert(c5 == quad_content(i as nat, q));
    lemma_split_on_lacks(c1, '|');
    lemma_split_field(c1, q.0);
    lemma_split_field(c2, q.1);
    lemma_split_field(c3, q.2);
    lemma_split_field(c4, q.3);
    let parts = split_on(c5, '|');
    assert(parts =~= seq![d, q.0, q.1, q.2, q.3]);
    assert(is_digit(d[0]));
    assert(c5[0] == d[0]);
    lemma_lacks_field(c1, q.0, '\n');
    lemma_lacks_field(c2, q.1, '\n');
    lemma_lacks_field(c3, q.2, '\n');
    lemma_lacks_field(c4, q.3, '\n');
    reveal_strlit("|");
    if q.3.len() > 0 {
        assert(c5.last() == q.3.last());
    } else {
        assert(c5.last() == '|');
    }
}

/// Reading `a` then `b` is reading `a + b`.
proof fn lemma_load_concat(st: LoadState, a: Seq<Seq<char>>, b: Seq<Seq<char>>, base: nat)
    ensures
        load_lines(st, a + b, base) == (if load_lines(st, a, base).1 is Some {
            load_lines(st, a, base)
        } else {
            load_lines(load_lines(st, a, base).0, b, base)
        }),
    decreases b.len(),
{
    if b.len() == 0 {
        assert(a + b =~= a);
    } else {
        lemma_load_concat(st, a, b.drop_last(), base);
        assert((a + b).drop_last() =~= a + b.drop_last());
        assert((a + b).last() == b.last());
    }
}

/// Reading one line.
proof fn lemma_load_one(st: LoadState, l: Seq<char>, base: nat)
    ensures
        load_lines(st, seq![l], base) == (match load_line(st, l, base) {
            Ok(s2) => (s2, None),
            Err(m) => (st, Some(m)),
        }),
{
    assert(seq![l].drop_last() =~= Seq::<Seq<char>>::empty());
    assert(load_lines(st, seq![l].drop_last(), base) == (st, None::<Seq<char>>));
    assert(seq![l].last() == l);
}

/// The names of the sections differ, and each opens a section.
proof fn lemma_sections()
    ensures
        "%%CONSTANTS"@ != "%%FUNCTIONS"@,
        "%%CONSTANTS"@ != "%%QUADRUPLES"@,
        "%%FUNCTIONS"@ != "%%QUADRUPLES"@,
        "%%END"@ != "%%CONSTANTS"@,
        "%%END"@ != "%%FUNCTIONS"@,
        "%%END"@ != "%%QUADRUPLES"@,
        is_header("%%CONSTANTS"@),
        is_header("%%FUNCTIONS"@),
        is_header("%%QUADRUPLES"@),
        is_header("%%END"@),
        plain_line("%%CONSTANTS"@),
        plain_line("%%FUNCTIONS"@),
        plain_line("%%QUADRUPLES"@),
        plain_line("%%END"@),
{
    reveal_strlit("%%CONSTANTS");
    reveal_strlit("%%FUNCTIONS");
    reveal_strlit("%%QUADRUPLES");
    reveal_strlit("%%END");
    assert("%%CONSTANTS"@[2] != "%%FUNCTIONS"@[2]);
    assert("%%CONSTANTS"@[2] != "%%QUADRUPLES"@[2]);
    assert("%%FUNCTIONS"@[2] != "%%QUADRUPLES"@[2]);
    assert("%%END"@.len() != "%%CONSTANTS"@.len());
    assert("%%END"@.len() != "%%FUNCTIONS"@.len());
    assert("%%END"@.len() != "%%QUADRUPLES"@.len());
}

/// The constant table that inserting the constants in `order` makes from `m`.
pub open spec fn const_fold(m: Map<Seq<char>, usize>, pairs: Seq<(String, usize)>, order: Seq<usize>) -> Map<
    Seq<char>,
    usize,
>
    decreases order.len(),
{
    if order.len() == 0 {
        m
    } else {
        let p = pairs[order.last() as int];
        const_fold(m, pairs, order.drop_last()).insert(p.0@, p.1)
    }
}

/// The records that inserting the functions in `order` makes from `m`.
pub open spec fn func_fold(m: Map<Seq<char>, FuncRecord>, pairs: Seq<(String, FuncEntry)>, order: Seq<usize>) -> Map<
    Seq<char>,
    FuncRecord,
>
    decreases order.len(),
{
    if order.len() == 0 {
        m
    } else {
        let p = pairs[order.last() as int];
        func_fold(m, pairs, order.drop_last()).insert(p.0@, record_of(p.1))
    }
}

/// Reading the lines of the constants in `order`, in the constants section.
proof fn lemma_load_constants(st: LoadState, pairs: Seq<(String, usize)>, order: Seq<usize>, base: nat)
    requires
        st.section == "%%CONSTANTS"@,
        forall|i: int| 0 <= i < order.len() ==> #[trigger] order[i] < pairs.len() && writable_constant(pairs[order[i] as int]),
    ensures
        load_lines(st, const_contents(pairs, order), base) == (LoadState {
            constants: const_fold(st.constants, pairs, order),
            ..st
        }, None::<Seq<char>>),
    decreases order.len(),
{
    let cc = const_contents(pairs, order);
    if order.len() == 0 {
        assert(cc =~= Seq::<Seq<char>>::empty());
        assert(LoadState { constants: st.constants, ..st } == st);
    } else {
        let o2 = order.drop_last();
        assert(forall|i: int| 0 <= i < o2.len() ==> #[trigger] o2[i] == order[i]);
        lemma_load_constants(st, pairs, o2, base);
        assert(cc.drop_last() =~= const_contents(pairs, o2));
        let p = pairs[order.last() as int];
        assert(order.last() == order[order.len() - 1]);
        lemma_constant_line(p);
        assert(cc.last() == const_content(p));
    }
}

/// Reading the lines of the functions in `order`, in the functions section.
proof fn lemma_load_functions(st: LoadState, pairs: Seq<(String, FuncEntry)>, order: Seq<usize>, base: nat)
    requires
        st.section == "%%FUNCTIONS"@,
        forall|i: int| 0 <= i < order.len() ==> #[trigger] order[i] < pairs.len() && writable_function(pairs[order[i] as int]),
    ensures
        load_lines(st, func_contents(pairs, order), base) == (LoadState {
            functions: func_fold(st.functions, pairs, order),
            ..st
        }, None::<Seq<char>>),
    decreases order.len(),
{
    let fc = func_contents(pairs, order);
    if order.len() == 0 {
        assert(fc =~= Seq::<Seq<char>>::empty());
        assert(LoadState { functions: st.functions, ..st } == st);
    } else {
        let o2 = order.drop_last();
        assert(forall|i: int| 0 <= i < o2.len() ==> #[trigger] o2[i] == order[i]);
        lemma_load_functions(st, pairs, o2, base);
        assert(fc.drop_last() =~= func_contents(pairs, o2));
        lemma_sections();
        let p = pairs[order.last() as int];
        assert(order.last() == order[order.len() - 1]);
        lemma_function_line(p);
        assert(fc.last() == func_content(p));
    }
}

/// Reading the lines of the quadruples of `code`, in the quadruples section, with
/// no quadruple read before.
proof fn lemma_load_quads(st: LoadState, code: Seq<QuadV>)
    requires
        st.section == "%%QUADRUPLES"@,
        st.quads.len() == 0,
        code.len() <= usize::MAX,
        forall|i: int| 0 <= i < code.len() ==> writable_quad(#[trigger] code[i]),
    ensures
        load_lines(st, quad_contents(code), 0) == (LoadState { quads: code, ..st }, None::<Seq<char>>),
    decreases code.len(),
{
    let qc = quad_contents(code);
    if code.len() == 0 {
        assert(qc =~= Seq::<Seq<char>>::empty());
        assert(st.quads =~= code);
    } else {
        let c2 = code.drop_last();
        assert(forall|i: int| 0 <= i < c2.len() ==> #[trigger] c2[i] == code[i]);
        lemma_load_quads(st, c2);
        assert(qc.drop_last() =~= quad_contents(c2));
        lemma_sections();
        let i = (code.len() - 1) as usize;
        assert(writable_quad(code[i as int]));
        lemma_quad_line(i, code.last());
        assert(qc.last() == quad_content(i as nat, code.last()));
        assert(c2.push(code.last()) =~= code);
    }
}

/// Inserting distinct entries: the names inserted are bound, each to its value.
proof fn lemma_const_fold(pairs: Seq<(String, usize)>, order: Seq<usize>)
    requires
        distinct_names(pairs),
        forall|i: int| 0 <= i < order.len() ==> #[trigger] order[i] < pairs.len(),
        forall|i: int, j: int| 0 <= i < j < order.len() ==> order[i] != order[j],
    ensures
        forall|k: Seq<char>| #[trigger] const_fold(Map::empty(), pairs, order).contains_key(k) <==> exists|i: int|
            0 <= i < order.len() && pairs[order[i] as int].0@ == k,
        forall|i: int| 0 <= i < order.len() ==> const_fold(Map::empty(), pairs, order)[#[trigger] pairs[order[i] as int].0@]
            == pairs[order[i] as int].1,
    decreases order.len(),
{
    if order.len() > 0 {
        let o2 = order.drop_last();
        assert(forall|i: int| 0 <= i < o2.len() ==> #[trigger] o2[i] == order[i]);
        lemma_const_fold(pairs, o2);
        let last = order.len() - 1;
        assert forall|k: Seq<char>| #[trigger] const_fold(Map::empty(), pairs, order).contains_key(k) <==> exists|i: int|
            0 <= i < order.len() && pairs[order[i] as int].0@ == k by {
            if exists|i: int| 0 <= i < order.len() && pairs[order[i] as int].0@ == k {
                let i = choose|i: int| 0 <= i < order.len() && pairs[order[i] as int].0@ == k;
                if i < last {
                    assert(o2[i] == order[i]);
                }
            }
            if const_fold(Map::empty(), pairs, o2).contains_key(k) {
                let i = choose|i: int| 0 <= i < o2.len() && pairs[o2[i] as int].0@ == k;
                assert(order[i] == o2[i]);
            }
        }
        assert forall|i: int| 0 <= i < order.len() implies const_fold(Map::empty(), pairs, order)[#[trigger] pairs[order[i] as int].0@]
            == pairs[order[i] as int].1 by {
            if i < last {
                assert(o2[i] == order[i]);
                assert(order[i] != order[last]);
                assert(pairs[order[i] as int].0@ != pairs[order[last] as int].0@);
            }
        }
    }
}

/// Inserting distinct functions: the names inserted are bound, each to its record.
proof fn lemma_func_fold(pairs: Seq<(String, FuncEntry)>, order: Seq<usize>)
    requires
        distinct_names(pairs),
        forall|i: int| 0 <= i < order.len() ==> #[trigger] order[i] < pairs.len(),
        forall|i: int, j: int| 0 <= i < j < order.len() ==> order[i] != order[j],
    ensures
        forall|k: Seq<char>| #[trigger] func_fold(Map::empty(), pairs, order).contains_key(k) <==> exists|i: int|
            0 <= i < order.len() && pairs[order[i] as int].0@ == k,
        forall|i: int| 0 <= i < order.len() ==> func_fold(Map::empty(), pairs, order)[#[trigger] pairs[order[i] as int].0@]
            == record_of(pairs[order[i] as int].1),
    decreases order.len(),
{
    if order.len() > 0 {
        let o2 = order.drop_last();
        assert(forall|i: int| 0 <= i < o2.len() ==> #[trigger] o2[i] == order[i]);
        lemma_func_fold(pairs, o2);
        let last = order.len() - 1;
        assert forall|k: Seq<char>| #[trigger] func_fold(Map::empty(), pairs, order).contains_key(k) <==> exists|i: int|
            0 <= i < order.len() && pairs[order[i] as int].0@ == k by {
            if exists|i: int| 0 <= i < order.len() && pairs[order[i] as int].0@ == k {
                let i = choose|i: int| 0 <= i < order.len() && pairs[order[i] as int].0@ == k;
                if i < last {
                    assert(o2[i] == order[i]);
                }
            }
            if func_fold(Map::empty(), pairs, o2).contains_key(k) {
                let i = choose|i: int| 0 <= i < o2.len() && pairs[o2[i] as int].0@ == k;
                assert(order[i] == o2[i]);
            }
        }
        assert forall|i: int| 0 <= i < order.len() implies func_fold(Map::empty(), pairs, order)[#[trigger] pairs[order[i] as int].0@]
            == record_of(pairs[order[i] as int].1) by {
            if i < last {
                assert(o2[i] == order[i]);
                assert(order[i] != order[last]);
                assert(pairs[order[i] as int].0@ != pairs[order[last] as int].0@);
            }
        }
    }
}

/// Inserting all the constants, in any order, gives the table they stand for.
proof fn lemma_const_fold_map(pairs: Seq<(String, usize)>, order: Seq<usize>)
    requires
        distinct_names(pairs),
        is_perm(order, pairs.len()),
    ensures
        const_fold(Map::empty(), pairs, order) == map_of(pairs),
{
    lemma_const_fold(pairs, order);
    lemma_distinct_last_index(pairs);
    let f = const_fold(Map::empty(), pairs, order);
    let m = map_of(pairs);
    assert forall|k: Seq<char>| f.contains_key(k) <==> m.contains_key(k) by {
        lemma_last_index(pairs, k);
        if m.contains_key(k) {
            let j = last_index(pairs, k);
            assert(occurs_in(order, j));
            let i = choose|i: int| 0 <= i < order.len() && order[i] == j;
            assert(pairs[order[i] as int].0@ == k);
        }
        if f.contains_key(k) {
            let i = choose|i: int| 0 <= i < order.len() && pairs[order[i] as int].0@ == k;
            assert(last_index(pairs, pairs[order[i] as int].0@) == order[i]);
        }
    }
    assert forall|k: Seq<char>| #[trigger] f.contains_key(k) implies f[k] == m[k] by {
        let i = choose|i: int| 0 <= i < order.len() && pairs[order[i] as int].0@ == k;
        assert(last_index(pairs, pairs[order[i] as int].0@) == order[i]);
    }
    assert(f =~= m);
}

/// Inserting all the functions, in any order, gives the records of the functions
/// they stand for.
proof fn lemma_func_fold_map(pairs: Seq<(String, FuncEntry)>, order: Seq<usize>)
    requires
        distinct_names(pairs),
        is_perm(order, pairs.len()),
    ensures
        func_fold(Map::empty(), pairs, order).dom() == map_of(pairs).dom(),
        forall|k: Seq<char>| #[trigger] map_of(pairs).contains_key(k) ==> func_fold(Map::empty(), pairs, order)[k]
            == record_of(map_of(pairs)[k]),
{
    lemma_func_fold(pairs, order);
    lemma_distinct_last_index(pairs);
    let f = func_fold(Map::empty(), pairs, order);
    let m = map_of(pairs);
    assert forall|k: Seq<char>| f.contains_key(k) <==> m.contains_key(k) by {
        lemma_last_index(pairs, k);
        if m.contains_key(k) {
            let j = last_index(pairs, k);
            assert(occurs_in(order, j));
            let i = choose|i: int| 0 <= i < order.len() && order[i] == j;
            assert(pairs[order[i] as int].0@ == k);
        }
        if f.contains_key(k) {
            let i = choose|i: int| 0 <= i < order.len() && pairs[order[i] as int].0@ == k;
            assert(last_index(pairs, pairs[order[i] as int].0@) == order[i]);
        }
    }
    assert(f.dom() =~= m.dom());
    assert forall|k: Seq<char>| #[trigger] m.contains_key(k) implies f[k] == record_of(m[k]) by {
        assert(f.contains_key(k));
        let i = choose|i: int| 0 <= i < order.len() && pairs[order[i] as int].0@ == k;
        assert(last_index(pairs, pairs[order[i] as int].0@) == order[i]);
    }
}

/// The lines of an object file are read as lines.
proof fn lemma_object_lines_plain(
    constants: Seq<(String, usize)>,
    corder: Seq<usize>,
    functions: Seq<(String, FuncEntry)>,
    forder: Seq<usize>,
    code: Seq<QuadV>,
)
    requires
        is_perm(corder, constants.len()),
        is_perm(forder, functions.len()),
        forall|i: int| 0 <= i < constants.len() ==> writable_constant(#[trigger] constants[i]),
        forall|i: int| 0 <= i < functions.len() ==> writable_function(#[trigger] functions[i]),
        forall|i: int| 0 <= i < code.len() ==> writable_quad(#[trigger] code[i]),
        code.len() <= usize::MAX,
    ensures
        forall|i: int| 0 <= i < object_lines(constants, corder, functions, forder, code).len() ==> plain_line(
            #[trigger] object_lines(constants, corder, functions, forder, code)[i],
        ),
{
    let lines = object_lines(constants, corder, functions, forder, code);
    let cc = const_contents(constants, corder);
    let fc = func_contents(functions, forder);
    let qc = quad_contents(code);
    lemma_sections();
    let n2 = 1 + cc.len();
    let n4 = n2 + 1 + fc.len();
    let n6 = n4 + 1 + qc.len();
    assert forall|i: int| 0 <= i < lines.len() implies plain_line(#[trigger] lines[i]) by {
        if i == 0 {
            assert(lines[i] == "%%CONSTANTS"@);
        } else if i < n2 {
            assert(lines[i] == cc[i - 1]);
            let j = corder[i - 1];
            assert(writable_constant(constants[j as int]));
            lemma_constant_line(constants[j as int]);
        } else if i == n2 {
            assert(lines[i] == "%%FUNCTIONS"@);
        } else if i < n4 {
            assert(lines[i] == fc[i - n2 - 1]);
            let j = forder[i - n2 - 1];
            assert(writable_function(functions[j as int]));
            lemma_function_line(functions[j as int]);
        } else if i == n4 {
            assert(lines[i] == "%%QUADRUPLES"@);
        } else if i < n6 {
            let k = i - n4 - 1;
            assert(lines[i] == qc[k]);
            assert(writable_quad(code[k]));
            lemma_quad_line(k as usize, code[k]);
        } else {
            assert(lines[i] == "%%END"@);
        }
    }
}

/// Reading back the object file that `ObjWriter` writes gives the constant table
/// and the quadruples that were written, and each function with all that the file
/// holds of it (its type, starting quadruple, counts and parameter types), whenever
/// no field that was written holds a character that separates fields or lines
/// there, and no constant or function name starts with `%%`.
pub proof fn law_object_file_read_back(
    constants: Seq<(String, usize)>,
    corder: Seq<usize>,
    functions: Seq<(String, FuncEntry)>,
    forder: Seq<usize>,
    code: Seq<QuadV>,
)
    requires
        distinct_names(constants),
        distinct_names(functions),
        is_perm(corder, constants.len()),
        is_perm(forder, functions.len()),
        forall|i: int| 0 <= i < constants.len() ==> writable_constant(#[trigger] constants[i]),
        forall|i: int| 0 <= i < functions.len() ==> writable_function(#[trigger] functions[i]),
        forall|i: int| 0 <= i < code.len() ==> writable_quad(#[trigger] code[i]),
        code.len() <= usize::MAX,
    ensures
        ({
            let (st, err) = load_lines(
                load_start(),
                text_lines(object_text(constants, corder, functions, forder, code)),
                0,
            );
            &&& err is None
            &&& st.constants == map_of(constants)
            &&& st.functions.dom() == map_of(functions).dom()
            &&& forall|k: Seq<char>| #[trigger] map_of(functions).contains_key(k) ==> st.functions[k]
                == record_of(map_of(functions)[k])
            &&& st.quads == code
        }),
{
    let h1 = seq!["%%CONSTANTS"@];
    let h2 = seq!["%%FUNCTIONS"@];
    let h3 = seq!["%%QUADRUPLES"@];
    let h4 = seq!["%%END"@];
    let cc = const_contents(constants, corder);
    let fc = func_contents(functions, forder);
    let qc = quad_contents(code);
    let lines = object_lines(constants, corder, functions, forder, code);
    lemma_object_text(constants, corder, functions, forder, code);
    lemma_object_lines_plain(constants, corder, functions, forder, code);
    lemma_text_lines_join(lines);
    lemma_sections();

    let s0 = load_start();
    let s1 = LoadState { section: "%%CONSTANTS"@, ..s0 };
    lemma_load_one(s0, "%%CONSTANTS"@, 0);
    assert(forall|i: int| 0 <= i < corder.len() ==> #[trigger] corder[i] < constants.len()
        && writable_constant(constants[corder[i] as int]));
    lemma_load_constants(s1, constants, corder, 0);
    let s2 = LoadState { constants: const_fold(Map::empty(), constants, corder), ..s1 };
    lemma_load_concat(s0, h1, cc, 0);
    let s3 = LoadState { section: "%%FUNCTIONS"@, ..s2 };
    lemma_load_one(s2, "%%FUNCTIONS"@, 0);
    lemma_load_concat(s0, h1 + cc, h2, 0);
    assert(forall|i: int| 0 <= i < forder.len() ==> #[trigger] forder[i] < functions.len()
        && writable_function(functions[forder[i] as int]));
    lemma_load_functions(s3, functions, forder, 0);
    let s4 = LoadState { functions: func_fold(Map::empty(), functions, forder), ..s3 };
    lemma_load_concat(s0, h1 + cc + h2, fc, 0);
    let s5 = LoadState { section: "%%QUADRUPLES"@, ..s4 };
    lemma_load_one(s4, "%%QUADRUPLES"@, 0);
    lemma_load_concat(s0, h1 + cc + h2 + fc, h3, 0);
    lemma_load_quads(s5, code);
    let s6 = LoadState { quads: code, ..s5 };
    lemma_load_concat(s0, h1 + cc + h2 + fc + h3, qc, 0);
    lemma_load_one(s6, "%%END"@, 0);
    lemma_load_concat(s0, h1 + cc + h2 + fc + h3 + qc, h4, 0);
    lemma_const_fold_map(constants, corder);
    lemma_func_fold_map(functions, forder);
}

/// Two sequences, each strictly ordered by `lt`, that hold the same elements are the
/// same sequence.
proof fn lemma_sorted_unique<A>(s1: Seq<A>, s2: Seq<A>, lt: spec_fn(A, A) -> bool)
    requires
        forall|a: A| !#[trigger] lt(a, a),
        forall|a: A, b: A, c: A| #[trigger] lt(a, b) && #[trigger] lt(b, c) ==> lt(a, c),
        forall|i: int, j: int| 0 <= i < j < s1.len() ==> lt(#[trigger] s1[i], #[trigger] s1[j]),
        forall|i: int, j: int| 0 <= i < j < s2.len() ==> lt(#[trigger] s2[i], #[trigger] s2[j]),
        forall|x: A| s1.contains(x) <==> s2.contains(x),
    ensures
        s1 == s2,
    decreases s1.len(),
{
    if s1.len() == 0 {
        if s2.len() > 0 {
            assert(s2.contains(s2[0]));
        }
        assert(s1 =~= s2);
    } else {
        assert(s1.contains(s1[0]));
        let j = choose|j: int| 0 <= j < s2.len() && s2[j] == s1[0];
        assert(s2.contains(s2[0]));
        let i = choose|i: int| 0 <= i < s1.len() && s1[i] == s2[0];
        if j > 0 {
            assert(lt(s2[0], s2[j]));
            if i > 0 {
                assert(lt(s1[0], s1[i]));
                assert(lt(s1[0], s1[0]));
            } else {
                assert(lt(s2[0], s2[0]));
            }
        }
        assert(s1[0] == s2[0]);
        let t1 = s1.drop_first();
        let t2 = s2.drop_first();
        assert forall|x: A| t1.contains(x) <==> t2.contains(x) by {
            if t1.contains(x) {
                let k = choose|k: int| 0 <= k < t1.len() && t1[k] == x;
                assert(s1[k + 1] == x);
                assert(lt(s1[0], s1[k + 1]));
                assert(s1.contains(x));
                let m = choose|m: int| 0 <= m < s2.len() && s2[m] == x;
                if m == 0 {
                    assert(lt(x, x));
                }
                assert(t2[m - 1] == x);
            }
            if t2.contains(x) {
                let k = choose|k: int| 0 <= k < t2.len() && t2[k] == x;
                assert(s2[k + 1] == x);
                assert(lt(s2[0], s2[k + 1]));
                assert(s2.contains(x));
                let m = choose|m: int| 0 <= m < s1.len() && s1[m] == x;
                if m == 0 {
                    assert(lt(x, x));
                }
                assert(t1[m - 1] == x);
            }
        }
        assert forall|a: int, b: int| 0 <= a < b < t1.len() implies lt(#[trigger] t1[a], #[trigger] t1[b]) by {
            assert(lt(s1[a + 1], s1[b + 1]));
        }
        assert forall|a: int, b: int| 0 <= a < b < t2.len() implies lt(#[trigger] t2[a], #[trigger] t2[b]) by {
            assert(lt(s2[a + 1], s2[b + 1]));
        }
        lemma_sorted_unique(t1, t2, lt);
        assert(s1 =~= seq![s1[0]] + t1);
        assert(s2 =~= seq![s2[0]] + t2);
    }
}

/// The constants in `order`, as names and addresses.
pub open spec fn const_entries(pairs: Seq<(String, usize)>, order: Seq<usize>) -> Seq<(Seq<char>, usize)> {
    order.map_values(|i: usize| (pairs[i as int].0@, pairs[i as int].1))
}

/// The functions in `order`, as names and what the file holds of them.
pub open spec fn func_entries(pairs: Seq<(String, FuncEntry)>, order: Seq<usize>) -> Seq<(Seq<char>, FuncRecord)> {
    order.map_values(|i: usize| (pairs[i as int].0@, record_of(pairs[i as int].1)))
}

/// The line of a function is a function of its name and record.
pub open spec fn record_content(n: Seq<char>, r: FuncRecord) -> Seq<char> {
    n + "|"@ + r.func_type + "|"@ + decimal(r.starting_quad as nat) + "|"@ + decimal(r.int_count as nat)
        + "|"@ + decimal(r.float_count as nat) + "|"@ + decimal(r.temp_int_count as nat) + "|"@
        + decimal(r.temp_float_count as nat) + "|"@ + seq_join(r.parameters, ","@)
}

/// The entries in a permutation are the entries of the map that the pairs stand for.
proof fn lemma_entries_of_map<V>(pairs: Seq<(String, V)>, order: Seq<usize>, x: (Seq<char>, V))
    requires
        distinct_names(pairs),
        is_perm(order, pairs.len()),
    ensures
        (exists|i: int| 0 <= i < order.len() && (pairs[order[i] as int].0@, pairs[order[i] as int].1) == x)
            <==> (map_of(pairs).contains_key(x.0) && map_of(pairs)[x.0] == x.1),
{
    lemma_distinct_last_index(pairs);
    lemma_last_index(pairs, x.0);
    if map_of(pairs).contains_key(x.0) && map_of(pairs)[x.0] == x.1 {
        let j = last_index(pairs, x.0);
        assert(occurs_in(order, j));
        let i = choose|i: int| 0 <= i < order.len() && order[i] == j;
        assert((pairs[order[i] as int].0@, pairs[order[i] as int].1) == x);
    }
    if exists|i: int| 0 <= i < order.len() && (pairs[order[i] as int].0@, pairs[order[i] as int].1) == x {
        let i = choose|i: int| 0 <= i < order.len() && (pairs[order[i] as int].0@, pairs[order[i] as int].1) == x;
        assert(last_index(pairs, pairs[order[i] as int].0@) == order[i]);
    }
}

/// The written constants, in address order, are determined by the table when no two
/// constants share an address.
proof fn lemma_const_entries_same(
    c1: Seq<(String, usize)>,
    o1: Seq<usize>,
    c2: Seq<(String, usize)>,
    o2: Seq<usize>,
)
    requires
        distinct_names(c1),
        distinct_names(c2),
        map_of(c1) == map_of(c2),
        forall|x: Seq<char>, y: Seq<char>| #[trigger] map_of(c1).contains_key(x) && #[trigger] map_of(c1).contains_key(y)
            && x != y ==> map_of(c1)[x] != map_of(c1)[y],
        is_perm(o1, c1.len()),
        is_perm(o2, c2.len()),
        sorted_by(o1, const_keys(c1)),
        sorted_by(o2, const_keys(c2)),
    ensures
        const_entries(c1, o1) == const_entries(c2, o2),
{
    let e1 = const_entries(c1, o1);
    let e2 = const_entries(c2, o2);
    let lt = |a: (Seq<char>, usize), b: (Seq<char>, usize)| a.1 < b.1;
    lemma_distinct_last_index(c1);
    lemma_distinct_last_index(c2);
    assert forall|i: int, j: int| 0 <= i < j < e1.len() implies lt(#[trigger] e1[i], #[trigger] e1[j]) by {
        assert(!key_lt(const_keys(c1)[o1[j] as int], const_keys(c1)[o1[i] as int]));
        let a = c1[o1[i] as int];
        let b = c1[o1[j] as int];
        assert(o1[i] != o1[j]);
        assert(a.0@ != b.0@);
        assert(last_index(c1, a.0@) == o1[i] && last_index(c1, b.0@) == o1[j]);
        assert(map_of(c1).contains_key(a.0@) && map_of(c1).contains_key(b.0@));
    }
    assert forall|i: int, j: int| 0 <= i < j < e2.len() implies lt(#[trigger] e2[i], #[trigger] e2[j]) by {
        assert(!key_lt(const_keys(c2)[o2[j] as int], const_keys(c2)[o2[i] as int]));
        let a = c2[o2[i] as int];
        let b = c2[o2[j] as int];
        assert(o2[i] != o2[j]);
        assert(a.0@ != b.0@);
        assert(last_index(c2, a.0@) == o2[i] && last_index(c2, b.0@) == o2[j]);
        assert(map_of(c2).contains_key(a.0@) && map_of(c2).contains_key(b.0@));
    }
    assert forall|x: (Seq<char>, usize)| e1.contains(x) <==> e2.contains(x) by {
        lemma_entries_of_map(c1, o1, x);
        lemma_entries_of_map(c2, o2, x);
        if e1.contains(x) {
            let i = choose|i: int| 0 <= i < e1.len() && e1[i] == x;
            assert((c1[o1[i] as int].0@, c1[o1[i] as int].1) == x);
            let k = choose|k: int| 0 <= k < o2.len() && (c2[o2[k] as int].0@, c2[o2[k] as int].1) == x;
            assert(e2[k] == x);
        }
        if e2.contains(x) {
            let i = choose|i: int| 0 <= i < e2.len() && e2[i] == x;
            assert((c2[o2[i] as int].0@, c2[o2[i] as int].1) == x);
            let k = choose|k: int| 0 <= k < o1.len() && (c1[o1[k] as int].0@, c1[o1[k] as int].1) == x;
            assert(e1[k] == x);
        }
    }
    lemma_sorted_unique(e1, e2, lt);
}

/// The functions in a permutation, as names and records, are those of the map that
/// the pairs stand for.
proof fn lemma_func_entries_of_map(pairs: Seq<(String, FuncEntry)>, order: Seq<usize>, x: (Seq<char>, FuncRecord))
    requires
        distinct_names(pairs),
        is_perm(order, pairs.len()),
    ensures
        (exists|i: int| 0 <= i < order.len() && (pairs[order[i] as int].0@, record_of(pairs[order[i] as int].1)) == x)
            <==> (map_of(pairs).contains_key(x.0) && record_of(map_of(pairs)[x.0]) == x.1),
{
    lemma_distinct_last_index(pairs);
    lemma_last_index(pairs, x.0);
    if map_of(pairs).contains_key(x.0) && record_of(map_of(pairs)[x.0]) == x.1 {
        let j = last_index(pairs, x.0);
        assert(occurs_in(order, j));
        let i = choose|i: int| 0 <= i < order.len() && order[i] == j;
        assert((pairs[order[i] as int].0@, record_of(pairs[order[i] as int].1)) == x);
    }
    if exists|i: int| 0 <= i < order.len() && (pairs[order[i] as int].0@, record_of(pairs[order[i] as int].1)) == x {
        let i = choose|i: int| 0 <= i < order.len() && (pairs[order[i] as int].0@, record_of(
            pairs[order[i] as int].1,
        )) == x;
        assert(last_index(pairs, pairs[order[i] as int].0@) == order[i]);
    }
}

/// The order in which functions are written: by starting quadruple, then by name.
pub open spec fn func_entry_lt(a: (Seq<char>, FuncRecord), b: (Seq<char>, FuncRecord)) -> bool {
    key_lt((a.1.starting_quad, a.0), (b.1.starting_quad, b.0))
}

/// In a sorted permutation of functions with distinct names, each comes strictly
/// before the next.
proof fn lemma_func_entries_strict(f: Seq<(String, FuncEntry)>, o: Seq<usize>)
    requires
        distinct_names(f),
        is_perm(o, f.len()),
        sorted_by(o, func_keys(f)),
    ensures
        forall|i: int, j: int| 0 <= i < j < func_entries(f, o).len() ==> func_entry_lt(
            #[trigger] func_entries(f, o)[i],
            #[trigger] func_entries(f, o)[j],
        ),
{
    let e = func_entries(f, o);
    assert forall|i: int, j: int| 0 <= i < j < e.len() implies func_entry_lt(#[trigger] e[i], #[trigger] e[j]) by {
        assert(!key_lt(func_keys(f)[o[j] as int], func_keys(f)[o[i] as int]));
        assert(o[i] != o[j]);
        let a = f[o[i] as int];
        let b = f[o[j] as int];
        assert(a.0@ != b.0@);
        if a.1.starting_quad == b.1.starting_quad {
            lemma_lex_lt_total(a.0@, b.0@);
        }
    }
}

/// The written functions, in order, are determined by the functions of the
/// directory.
proof fn lemma_func_entries_same(
    f1: Seq<(String, FuncEntry)>,
    o1: Seq<usize>,
    f2: Seq<(String, FuncEntry)>,
    o2: Seq<usize>,
)
    requires
        distinct_names(f1),
        distinct_names(f2),
        map_of(f1) == map_of(f2),
        is_perm(o1, f1.len()),
        is_perm(o2, f2.len()),
        sorted_by(o1, func_keys(f1)),
        sorted_by(o2, func_keys(f2)),
    ensures
        func_entries(f1, o1) == func_entries(f2, o2),
{
    let e1 = func_entries(f1, o1);
    let e2 = func_entries(f2, o2);
    let lt = |a: (Seq<char>, FuncRecord), b: (Seq<char>, FuncRecord)| func_entry_lt(a, b);
    lemma_func_entries_strict(f1, o1);
    lemma_func_entries_strict(f2, o2);
    assert forall|a: (Seq<char>, FuncRecord)| !#[trigger] lt(a, a) by {
        lemma_lex_lt_irreflexive(a.0);
    }
    assert forall|a: (Seq<char>, FuncRecord), b: (Seq<char>, FuncRecord), c: (Seq<char>, FuncRecord)|
        #[trigger] lt(a, b) && #[trigger] lt(b, c) implies lt(a, c) by {
        lemma_key_lt_transitive(
            (a.1.starting_quad, a.0),
            (b.1.starting_quad, b.0),
            (c.1.starting_quad, c.0),
        );
    }
    assert forall|x: (Seq<char>, FuncRecord)| e1.contains(x) <==> e2.contains(x) by {
        lemma_func_entries_of_map(f1, o1, x);
        lemma_func_entries_of_map(f2, o2, x);
        if e1.contains(x) {
            let i = choose|i: int| 0 <= i < e1.len() && e1[i] == x;
            assert((f1[o1[i] as int].0@, record_of(f1[o1[i] as int].1)) == x);
            let k = choose|k: int| 0 <= k < o2.len() && (f2[o2[k] as int].0@, record_of(f2[o2[k] as int].1)) == x;
            assert(e2[k] == x);
        }
        if e2.contains(x) {
            let i = choose|i: int| 0 <= i < e2.len() && e2[i] == x;
            assert((f2[o2[i] as int].0@, record_of(f2[o2[i] as int].1)) == x);
            let k = choose|k: int| 0 <= k < o1.len() && (f1[o1[k] as int].0@, record_of(f1[o1[k] as int].1)) == x;
            assert(e1[k] == x);
        }
    }
    lemma_sorted_unique(e1, e2, lt);
}

/// The object file depends only on the constant table, the functions and the code,
/// not on the order in which the tables were filled: for directories with the same
/// tables, every text that `build_content` may give is the same, as long as no two
/// constants share an address.
pub proof fn law_object_file_deterministic(
    c1: Seq<(String, usize)>,
    co1: Seq<usize>,
    f1: Seq<(String, FuncEntry)>,
    fo1: Seq<usize>,
    c2: Seq<(String, usize)>,
    co2: Seq<usize>,
    f2: Seq<(String, FuncEntry)>,
    fo2: Seq<usize>,
    code: Seq<QuadV>,
)
    requires
        distinct_names(c1),
        distinct_names(c2),
        distinct_names(f1),
        distinct_names(f2),
        map_of(c1) == map_of(c2),
        map_of(f1) == map_of(f2),
        forall|x: Seq<char>, y: Seq<char>| #[trigger] map_of(c1).contains_key(x) && #[trigger] map_of(c1).contains_key(y)
            && x != y ==> map_of(c1)[x] != map_of(c1)[y],
        is_perm(co1, c1.len()),
        is_perm(co2, c2.len()),
        sorted_by(co1, const_keys(c1)),
        sorted_by(co2, const_keys(c2)),
        is_perm(fo1, f1.len()),
        is_perm(fo2, f2.len()),
        sorted_by(fo1, func_keys(f1)),
        sorted_by(fo2, func_keys(f2)),
    ensures
        object_text(c1, co1, f1, fo1, code) == object_text(c2, co2, f2, fo2, code),
{
    lemma_const_entries_same(c1, co1, c2, co2);
    lemma_func_entries_same(f1, fo1, f2, fo2);
    let ce1 = const_entries(c1, co1);
    let fe1 = func_entries(f1, fo1);
    let ce2 = const_entries(c2, co2);
    let fe2 = func_entries(f2, fo2);
    assert(ce1.len() == co1.len() && ce2.len() == co2.len());
    assert(fe1.len() == fo1.len() && fe2.len() == fo2.len());
    assert(const_contents(c1, co1) =~= const_contents(c2, co2)) by {
        assert forall|i: int| 0 <= i < co1.len() implies #[trigger] const_contents(c1, co1)[i] == const_contents(c2, co2)[i] by {
            assert(ce1[i] == ce2[i]);
            assert(ce1[i] == (c1[co1[i] as int].0@, c1[co1[i] as int].1));
            assert(ce2[i] == (c2[co2[i] as int].0@, c2[co2[i] as int].1));
            assert(const_contents(c1, co1)[i] == const_content(c1[co1[i] as int]));
            assert(const_contents(c2, co2)[i] == const_content(c2[co2[i] as int]));
        }
    }
    assert(func_contents(f1, fo1) =~= func_contents(f2, fo2)) by {
        assert forall|i: int| 0 <= i < fo1.len() implies #[trigger] func_contents(f1, fo1)[i] == func_contents(f2, fo2)[i] by {
            assert(fe1[i] == fe2[i]);
            assert(fe1[i] == (f1[fo1[i] as int].0@, record_of(f1[fo1[i] as int].1)));
            assert(fe2[i] == (f2[fo2[i] as int].0@, record_of(f2[fo2[i] as int].1)));
            assert(func_content(f1[fo1[i] as int]) == record_content(fe1[i].0, fe1[i].1));
            assert(func_content(f2[fo2[i] as int]) == record_content(fe2[i].0, fe2[i].1));
        }
    }
    lemma_const_lines(c1, co1);
    lemma_const_lines(c2, co2);
    lemma_func_lines(f1, fo1);
    lemma_func_lines(f2, fo2);
}

} // verus!
