use vstd::prelude::*;

verus! {

/// A dynamically typed value crossing the expression-evaluator boundary:
/// the closed set of shapes that document expressions may produce.
#[derive(Debug)]
pub enum DynamicValue {
    Text(String),
    Bool(bool),
    Int(i64),
    List(Vec<DynamicValue>),
    Object(Vec<(String, DynamicValue)>),
}

/// The decimal digits of a non-negative integer, most significant first.
pub open spec fn dec_of_nat(n: nat) -> Seq<char>
    decreases n,
{
    let digit = seq![dec_digit((n % 10) as int)];
    if n < 10 {
        digit
    } else {
        dec_of_nat(n / 10) + digit
    }
}

/// The character for a single decimal digit.
pub open spec fn dec_digit(d: int) -> char {
    if d == 0 {
        '0'
    } else if d == 1 {
        '1'
    } else if d == 2 {
        '2'
    } else if d == 3 {
        '3'
    } else if d == 4 {
        '4'
    } else if d == 5 {
        '5'
    } else if d == 6 {
        '6'
    } else if d == 7 {
        '7'
    } else if d == 8 {
        '8'
    } else {
        '9'
    }
}

/// The decimal rendering of an integer, with a leading '-' when negative.
pub open spec fn dec_of_int(i: int) -> Seq<char> {
    if i < 0 {
        seq!['-'] + dec_of_nat((-i) as nat)
    } else {
        dec_of_nat(i as nat)
    }
}

/// Relies on i64's Display implementation: the decimal digits of the value,
/// preceded by '-' when it is negative.
#[verifier::external_body]
fn int_to_string(i: i64) -> (r: String)
    ensures
        r@ == dec_of_int(i as int),
{
    i.to_string()
}

/// The scalar string form of a value: text verbatim, booleans and integers in
/// their usual spelling, sequences bracketed and comma-separated, objects in
/// `#{key: value, ...}` form with entries in their stored order.
pub open spec fn string_form_spec(v: DynamicValue) -> Seq<char>
    decreases v, 2int,
{
    match v {
        DynamicValue::Text(s) => s@,
        DynamicValue::Bool(b) => if b {
            "true"@
        } else {
            "false"@
        },
        DynamicValue::Int(i) => dec_of_int(i as int),
        DynamicValue::List(items) => seq!['['] + comma_forms(items@) + seq![']'],
        DynamicValue::Object(entries) => seq!['#', '{'] + comma_entries(entries@) + seq!['}'],
    }
}

/// The form of a value standing inside a rendered collection: text is
/// quoted there, every other value keeps its scalar string form.
pub open spec fn element_form_spec(v: DynamicValue) -> Seq<char>
    decreases v, 3int,
{
    match v {
        DynamicValue::Text(s) => seq!['"'] + s@ + seq!['"'],
        _ => string_form_spec(v),
    }
}

/// The element forms of a sequence of values, joined with ", ".
pub open spec fn comma_forms(items: Seq<DynamicValue>) -> Seq<char>
    decreases items, 1int,
{
    if items.len() == 0 {
        Seq::<char>::empty()
    } else if items.len() == 1 {
        element_form_spec(items[0])
    } else {
        element_form_spec(items[0]) + ", "@ + comma_forms(items.drop_first())
    }
}

/// The `key: value` forms of an object's entries, joined with ", ".
pub open spec fn comma_entries(entries: Seq<(String, DynamicValue)>) -> Seq<char>
    decreases entries, 1int,
{
    if entries.len() == 0 {
        Seq::<char>::empty()
    } else {
        let head = entries[0].0@ + ": "@ + element_form_spec(entries[0].1);
        if entries.len() == 1 {
            head
        } else {
            head + ", "@ + comma_entries(entries.drop_first())
        }
    }
}

/// The concatenation of the string forms of a sequence of values, in order,
/// with no separator: the array-flattening rendering of a body expression.
pub open spec fn flat_forms(items: Seq<DynamicValue>) -> Seq<char>
    decreases items, 1int,
{
    if items.len() == 0 {
        Seq::<char>::empty()
    } else {
        string_form_spec(items[0]) + flat_forms(items.drop_first())
    }
}

/// The rendering of a body expression's value: a sequence flattens to the
/// concatenation of its elements' string forms; anything else uses its scalar
/// string form.
pub open spec fn body_expression_form(v: DynamicValue) -> Seq<char> {
    match v {
        DynamicValue::List(items) => flat_forms(items@),
        _ => string_form_spec(v),
    }
}

proof fn lemma_comma_forms_push(items: Seq<DynamicValue>, x: DynamicValue)
    ensures
        comma_forms(items.push(x)) == if items.len() == 0 {
            element_form_spec(x)
        } else {
            comma_forms(items) + ", "@ + element_form_spec(x)
        },
    decreases items.len(),
{
    if items.len() == 0 {
        assert(items.push(x).len() == 1);
        assert(items.push(x)[0] == x);
    } else {
        assert(items.push(x).drop_first() =~= items.drop_first().push(x));
        lemma_comma_forms_push(items.drop_first(), x);
        if items.len() == 1 {
            assert(comma_forms(items) == element_form_spec(items[0]));
            assert(comma_forms(items.push(x)) =~= comma_forms(items) + ", "@ + element_form_spec(
                x,
            ));
        } else {
            assert(comma_forms(items.push(x)) =~= comma_forms(items) + ", "@ + element_form_spec(
                x,
            ));
        }
    }
}

proof fn lemma_comma_entries_push(entries: Seq<(String, DynamicValue)>, k: String, v: DynamicValue)
    ensures
        comma_entries(entries.push((k, v))) == if entries.len() == 0 {
            k@ + ": "@ + element_form_spec(v)
        } else {
            comma_entries(entries) + ", "@ + (k@ + ": "@ + element_form_spec(v))
        },
    decreases entries.len(),
{
    if entries.len() == 0 {
        assert(entries.push((k, v)).len() == 1);
        assert(entries.push((k, v))[0] == (k, v));
    } else {
        assert(entries.push((k, v)).drop_first() =~= entries.drop_first().push((k, v)));
        lemma_comma_entries_push(entries.drop_first(), k, v);
        if entries.len() == 1 {
            assert(comma_entries(entries.push((k, v))) =~= comma_entries(entries) + ", "@ + (k@
                + ": "@ + element_form_spec(v)));
        } else {
            assert(comma_entries(entries.push((k, v))) =~= comma_entries(entries) + ", "@ + (k@
                + ": "@ + element_form_spec(v)));
        }
    }
}

proof fn lemma_flat_forms_push(items: Seq<DynamicValue>, x: DynamicValue)
    ensures
        flat_forms(items.push(x)) == flat_forms(items) + string_form_spec(x),
    decreases items.len(),
{
    if items.len() == 0 {
        assert(items.push(x).len() == 1);
        assert(items.push(x)[0] == x);
        assert(items.push(x).drop_first() =~= Seq::<DynamicValue>::empty());
        assert(flat_forms(items.push(x).drop_first()) == Seq::<char>::empty());
        assert(flat_forms(items.push(x)) =~= flat_forms(items) + string_form_spec(x));
    } else {
        assert(items.push(x).drop_first() =~= items.drop_first().push(x));
        lemma_flat_forms_push(items.drop_first(), x);
        assert(flat_forms(items.push(x)) =~= flat_forms(items) + string_form_spec(x));
    }
}

/// The form of a value standing inside a rendered collection, as
/// `element_form_spec` states it.
#[verifier::loop_isolation(false)]
fn element_form(v: &DynamicValue) -> (r: String)
    ensures
        r@ == element_form_spec(*v),
    decreases *v, 3int,
{
    match v {
        DynamicValue::Text(s) => {
            let mut out = String::from_str("\"");
            out.append(s.as_str());
            out.append("\"");
            proof {
                reveal_strlit("\"");
                assert(out@ =~= seq!['"'] + s@ + seq!['"']);
            }
            out
        },
        _ => string_form(v),
    }
}

/// The scalar string form of a value, as `string_form_spec` states it.
#[verifier::loop_isolation(false)]
#[verifier::rlimit(30)]
pub fn string_form(v: &DynamicValue) -> (r: String)
    ensures
        r@ == string_form_spec(*v),
    decreases *v, 2int,
{
    match v {
        DynamicValue::Text(s) => s.clone(),
        DynamicValue::Bool(b) => {
            if *b {
                String::from_str("true")
            } else {
                String::from_str("false")
            }
        },
        DynamicValue::Int(i) => int_to_string(*i),
        DynamicValue::List(items) => {
            let mut out = String::from_str("[");
            proof {
                reveal_strlit("[");
                assert(items@.take(0) =~= Seq::<DynamicValue>::empty());
                assert(out@ =~= seq!['['] + comma_forms(items@.take(0)));
            }
            let mut j: usize = 0;
            while j < items.len()
                invariant
                    j <= items@.len(),
                    out@ == seq!['['] + comma_forms(items@.take(j as int)),
                decreases items@.len() - j,
            {
                if j > 0 {
                    out.append(", ");
                }
                proof {
                    assert(decreases_to!(*v => *items));
                    assert(decreases_to!(*items => items@));
                    assert(decreases_to!(items@ => items@[j as int]));
                }
                let piece = element_form(&items[j]);
                out.append(piece.as_str());
                proof {
                    lemma_comma_forms_push(items@.take(j as int), items@[j as int]);
                    assert(items@.take(j as int).push(items@[j as int]) =~= items@.take(
                        j as int + 1,
                    ));
                }
                j = j + 1;
            }
            proof {
                assert(items@.take(items@.len() as int) =~= items@);
            }
            out.append("]");
            proof {
                reveal_strlit("]");
                assert(out@ =~= seq!['['] + comma_forms(items@) + seq![']']);
            }
            out
        },
        DynamicValue::Object(entries) => {
            let mut out = String::from_str("#{");
            proof {
                reveal_strlit("#{");
                assert(entries@.take(0) =~= Seq::<(String, DynamicValue)>::empty());
                assert(out@ =~= seq!['#', '{'] + comma_entries(entries@.take(0)));
            }
            let mut j: usize = 0;
            while j < entries.len()
                invariant
                    j <= entries@.len(),
                    out@ == seq!['#', '{'] + comma_entries(entries@.take(j as int)),
                decreases entries@.len() - j,
            {
                if j > 0 {
                    out.append(", ");
                }
                out.append(entries[j].0.as_str());
                out.append(": ");
                proof {
                    assert(decreases_to!(*v => *entries));
                    assert(decreases_to!(*entries => entries@));
                    assert(decreases_to!(entries@ => entries@[j as int]));
                    assert(decreases_to!(entries@[j as int] => entries@[j as int].1));
                }
                let piece = element_form(&entries[j].1);
                out.append(piece.as_str());
                proof {
                    lemma_comma_entries_push(
                        entries@.take(j as int),
                        entries@[j as int].0,
                        entries@[j as int].1,
                    );
                    assert(entries@.take(j as int).push(entries@[j as int]) =~= entries@.take(
                        j as int + 1,
                    ));
                }
                j = j + 1;
            }
            proof {
                assert(entries@.take(entries@.len() as int) =~= entries@);
            }
            out.append("}");
            proof {
                reveal_strlit("}");
                assert(out@ =~= seq!['#', '{'] + comma_entries(entries@) + seq!['}']);
            }
            out
        },
    }
}

/// Renders a body expression's value: a sequence of N elements becomes the
/// concatenation of each element's string form, in order, with no inserted
/// separator; any other value becomes its scalar string form.
#[verifier::loop_isolation(false)]
pub fn render_body_value(v: &DynamicValue) -> (r: String)
    ensures
        r@ == body_expression_form(*v),
{
    match v {
        DynamicValue::List(items) => {
            let mut out = String::new();
            let mut j: usize = 0;
            while j < items.len()
                invariant
                    j <= items@.len(),
                    out@ == flat_forms(items@.take(j as int)),
                decreases items@.len() - j,
            {
                let piece = string_form(&items[j]);
                out.append(piece.as_str());
                proof {
                    lemma_flat_forms_push(items@.take(j as int), items@[j as int]);
                    assert(items@.take(j as int).push(items@[j as int]) =~= items@.take(
                        j as int + 1,
                    ));
                }
                j = j + 1;
            }
            proof {
                assert(items@.take(items@.len() as int) =~= items@);
            }
            out
        },
        _ => string_form(v),
    }
}

} // verus!
