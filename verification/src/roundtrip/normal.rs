//! What the reader hands out is in normal form.
use vstd::prelude::*;
use crate::data::divisors::lemma_lowest_terms_exist;
use crate::data::expression::Datum;
use crate::data::reals::lemma_decimal_real_normal;
use crate::read::grammar::{
    complex_at, decimal_at, decimal_number_at, exact_at, expr_at, expressions, items_at,
    list_at, mantissa_at, number_at, radix_at, integer_at, sign_at, vector_at,
};

verus! {

proof fn lemma_decimal_normal(s: Seq<char>, pos: int, plain: bool)
    ensures
        decimal_at(s, pos, plain) matches Some((r, _)) ==> r.wf(),
{
    match mantissa_at(s, sign_at(s, pos).1, plain) {
        Some((m, e, _)) => {
            lemma_decimal_real_normal(sign_at(s, pos).0, m, e);
        },
        None => {},
    }
}

proof fn lemma_complex_normal(s: Seq<char>, pos: int)
    ensures
        complex_at(s, pos) matches Some(((re, im), _)) ==> re.wf() && im.wf(),
{
    lemma_decimal_normal(s, pos, true);
    match decimal_at(s, pos, true) {
        Some((first, next)) => {
            lemma_decimal_normal(s, next, true);
        },
        None => {},
    }
}

proof fn lemma_exact_normal(s: Seq<char>, pos: int, radix: int)
    ensures
        exact_at(s, pos, radix) matches Some((n, _)) ==> n.wf(),
{
    match integer_at(s, pos, radix) {
        Some((n, slash)) => {
            match integer_at(s, slash + 1, radix) {
                Some((d, _)) => {
                    if d != 0 {
                        lemma_lowest_terms_exist(n, d);
                    }
                },
                None => {},
            }
        },
        None => {},
    }
}

proof fn lemma_decimal_number_normal(s: Seq<char>, pos: int)
    ensures
        decimal_number_at(s, pos) matches Some((n, _)) ==> n.wf(),
{
    lemma_complex_normal(s, pos);
    lemma_decimal_normal(s, pos, false);
    lemma_exact_normal(s, pos, 10);
}

/// A number that is read is in normal form.
pub proof fn lemma_number_normal(s: Seq<char>, pos: int)
    ensures
        number_at(s, pos) matches Some((n, _)) ==> n.wf(),
{
    lemma_decimal_number_normal(s, pos);
    lemma_decimal_number_normal(s, pos + 2);
    match radix_at(s, pos) {
        Some(radix) => {
            lemma_exact_normal(s, pos + 2, radix);
        },
        None => {},
    }
}

/// The list that a quote mark stands for is in normal form where the
/// expression behind the mark is.
proof fn lemma_quoted_form_normal(name: Seq<char>, d: Datum)
    requires
        d.wf(),
    ensures
        crate::read::grammar::quoted_form(name, d).wf(),
{
    let rest = Datum::Pair(Box::new(d), Box::new(Datum::Nil));
    assert(Datum::Nil.wf());
    assert(Datum::Symbol(name).wf());
    assert(rest.wf());
}

/// An expression that is read is in normal form.
pub proof fn lemma_expression_normal(s: Seq<char>, pos: int)
    ensures
        expr_at(s, pos) matches Ok((d, _)) ==> d.wf(),
    decreases s.len() - pos, 1int,
{
    if 0 <= pos < s.len() {
        lemma_number_normal(s, pos);
        if s[pos] == '(' {
            lemma_list_normal(s, pos + 1, true);
        } else if s[pos] == '#' && crate::read::grammar::has_char(s, pos + 1, '(') {
            lemma_vector_normal(s, pos + 2);
        } else {
            match crate::read::grammar::quote_mark_at(s, pos) {
                Some((_, length)) => {
                    match crate::read::grammar::skip_end(s, pos + length) {
                        Ok(start) => {
                            if pos < start <= s.len() {
                                lemma_expression_normal(s, start);
                                match expr_at(s, start) {
                                    Ok((d, _)) => {
                                        lemma_quoted_form_normal(
                                            crate::read::grammar::quote_mark_at(s, pos)->Some_0.0,
                                            d,
                                        );
                                    },
                                    Err(_) => {},
                                }
                            }
                        },
                        Err(_) => {},
                    }
                },
                None => {},
            }
        }
    }
}

proof fn lemma_list_normal(s: Seq<char>, pos: int, first: bool)
    ensures
        list_at(s, pos, first) matches Ok((d, _)) ==> d.wf(),
    decreases s.len() - pos, 2int,
{
    match crate::read::grammar::skip_end(s, pos) {
        Ok(start) => {
            if !(start < pos || !(0 <= start < s.len())) && s[start] != ')' {
                if !first && crate::read::grammar::is_lone_dot(s, start) {
                    match crate::read::grammar::skip_end(s, start + 1) {
                        Ok(at) => {
                            if pos < at <= s.len() {
                                lemma_expression_normal(s, at);
                            }
                        },
                        Err(_) => {},
                    }
                } else {
                    lemma_expression_normal(s, start);
                    match expr_at(s, start) {
                        Ok((item, next)) => {
                            if pos < next <= s.len() {
                                lemma_list_normal(s, next, false);
                            }
                        },
                        Err(_) => {},
                    }
                }
            }
        },
        Err(_) => {},
    }
}

proof fn lemma_vector_normal(s: Seq<char>, pos: int)
    ensures
        vector_at(s, pos) matches Ok((items, _)) ==> forall|i: int|
            0 <= i < items.len() ==> (#[trigger] items[i]).wf(),
    decreases s.len() - pos, 2int,
{
    match crate::read::grammar::skip_end(s, pos) {
        Ok(start) => {
            if !(start < pos || !(0 <= start < s.len())) && s[start] != ')' {
                lemma_expression_normal(s, start);
                match expr_at(s, start) {
                    Ok((item, next)) => {
                        if pos < next <= s.len() {
                            lemma_vector_normal(s, next);
                            match vector_at(s, next) {
                                Ok((rest, _)) => {
                                    let items = seq![item] + rest;
                                    assert forall|i: int| 0 <= i < items.len() implies (
                                    #[trigger] items[i]).wf() by {
                                        if i > 0 {
                                            assert(items[i] == rest[i - 1]);
                                        }
                                    }
                                },
                                Err(_) => {},
                            }
                        }
                    },
                    Err(_) => {},
                }
            }
        },
        Err(_) => {},
    }
}

proof fn lemma_items_normal(s: Seq<char>, pos: int)
    ensures
        items_at(s, pos) matches Ok(items) ==> forall|i: int|
            0 <= i < items.len() ==> (#[trigger] items[i]).wf(),
    decreases s.len() - pos,
{
    if 0 <= pos < s.len() {
        lemma_expression_normal(s, pos);
        match expr_at(s, pos) {
            Ok((item, next)) => {
                match crate::read::grammar::skip_end(s, next) {
                    Ok(start) => {
                        if pos < start <= s.len() {
                            lemma_items_normal(s, start);
                            match items_at(s, start) {
                                Ok(rest) => {
                                    let items = seq![item] + rest;
                                    assert forall|i: int| 0 <= i < items.len() implies (
                                    #[trigger] items[i]).wf() by {
                                        if i > 0 {
                                            assert(items[i] == rest[i - 1]);
                                        }
                                    }
                                },
                                Err(_) => {},
                            }
                        }
                    },
                    Err(_) => {},
                }
            },
            Err(_) => {},
        }
    }
}

/// All the expressions of a text are in normal form.
pub proof fn lemma_read_is_normal(s: Seq<char>)
    ensures
        expressions(s) matches Ok(items) ==> forall|i: int|
            0 <= i < items.len() ==> (#[trigger] items[i]).wf(),
{
    match crate::read::grammar::skip_end(s, 0) {
        Ok(start) => {
            lemma_items_normal(s, start);
        },
        Err(_) => {},
    }
}

} // verus!
