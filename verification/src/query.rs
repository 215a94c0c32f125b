//! The query part of a URL, taken as it is written: nothing is decoded.

use vstd::prelude::*;

use crate::text;
use crate::text::chars_of;
use crate::text::find_char;
use crate::text::same_chars;
use crate::text::text_of;

verus! {

/// The value of the first parameter called `name` in a query.
pub open spec fn query_value(query: Seq<char>, name: Seq<char>) -> Option<Seq<char>>
    decreases query.len(),
{
    let end = text::first_index(query, '&') as int;
    let pair = query.take(end);
    let eq = text::first_index(pair, '=') as int;
    if eq < pair.len() && pair.take(eq) == name {
        Some(pair.skip(eq + 1))
    } else if end < query.len() {
        query_value(query.skip(end + 1), name)
    } else {
        None
    }
}

/// The value of the first parameter called `name` in a query.
pub fn query_parameter(query: &str, name: &str) -> (r: Option<String>)
    ensures
        text::opt_text(r) == query_value(query@, name@),
{
    let chars: Vec<char> = chars_of(query);
    let name: Vec<char> = chars_of(name);
    match find_parameter(&chars, &name) {
        Some((from, to)) => Some(text_of(&chars, from, to)),
        None => None,
    }
}

/// A query with `value` for the value of the first parameter called `name`.
pub open spec fn query_with(query: Seq<char>, name: Seq<char>, value: Seq<char>) -> Seq<char>
    decreases query.len(),
{
    let end = text::first_index(query, '&') as int;
    let pair = query.take(end);
    let eq = text::first_index(pair, '=') as int;
    if eq < pair.len() && pair.take(eq) == name {
        pair.take(eq + 1) + value + query.skip(end)
    } else if end < query.len() {
        query.take(end + 1) + query_with(query.skip(end + 1), name, value)
    } else {
        query
    }
}

/// Where the value of the first parameter called `name` starts and ends.
fn find_parameter(query: &Vec<char>, name: &Vec<char>) -> (r: Option<(usize, usize)>)
    ensures
        match r {
            Some((from, to)) => {
                &&& from <= to <= query@.len()
                &&& query_value(query@, name@) == Some(query@.subrange(from as int, to as int))
                &&& forall|value: Seq<char>| #[trigger]
                    query_with(query@, name@, value) == query@.take(from as int) + value
                        + query@.skip(to as int)
            },
            None => {
                &&& query_value(query@, name@) is None
                &&& forall|value: Seq<char>| #[trigger]
                    query_with(query@, name@, value) == query@
            },
        },
{
    let mut start: usize = 0;
    proof {
        assert(query@.skip(0) =~= query@);
        assert forall|value: Seq<char>| #[trigger]
            query_with(query@, name@, value) == query@.take(0) + query_with(
                query@.skip(0),
                name@,
                value,
            ) by {
            assert(query@.take(0) + query_with(query@, name@, value) =~= query_with(
                query@,
                name@,
                value,
            ));
        }
    }
    loop
        invariant
            start <= query@.len(),
            query_value(query@, name@) == query_value(query@.skip(start as int), name@),
            forall|value: Seq<char>| #[trigger]
                query_with(query@, name@, value) == query@.take(start as int) + query_with(
                    query@.skip(start as int),
                    name@,
                    value,
                ),
        decreases query@.len() - start,
    {
        let ghost rest = query@.skip(start as int);
        let end: usize = find_char(query, start, query.len(), '&');
        let eq: usize = find_char(query, start, end, '=');
        let ghost pair = rest.take(end - start);
        proof {
            assert(query@.subrange(start as int, query@.len() as int) =~= rest);
            assert(query@.subrange(start as int, end as int) =~= pair);
            assert(eq < end ==> query@.subrange(start as int, eq as int) =~= pair.take(eq - start));
        }
        if eq < end && same_chars(query, start, eq, name) {
            proof {
                assert(pair.skip(eq - start + 1) =~= query@.subrange(eq + 1, end as int));
                assert forall|value: Seq<char>| #[trigger]
                    query_with(query@, name@, value) == query@.take(eq + 1) + value + query@.skip(
                        end as int,
                    ) by {
                    assert(query@.take(start as int) + (pair.take(eq - start + 1) + value
                        + rest.skip(end - start)) =~= query@.take(eq + 1) + value + query@.skip(
                        end as int,
                    ));
                }
            }
            return Some((eq + 1, end));
        }
        if end == query.len() {
            proof {
                assert(query@.take(start as int) + rest =~= query@);
            }
            return None;
        }
        proof {
            assert(rest.skip(end - start + 1) =~= query@.skip(end + 1));
            assert forall|value: Seq<char>| #[trigger]
                query_with(query@, name@, value) == query@.take(end + 1) + query_with(
                    query@.skip(end + 1),
                    name@,
                    value,
                ) by {
                let after = query_with(query@.skip(end + 1), name@, value);
                assert(query@.take(start as int) + (rest.take(end - start + 1) + after)
                    =~= query@.take(end + 1) + after);
            }
        }
        start = end + 1;
    }
}

/// Puts `value` in place of the value of the first parameter called `name`.
pub fn replace_query_parameter(query: &str, name: &str, value: &str) -> (r: String)
    ensures
        r@ == query_with(query@, name@, value@),
{
    let chars: Vec<char> = chars_of(query);
    let name: Vec<char> = chars_of(name);
    match find_parameter(&chars, &name) {
        Some((from, to)) => {
            let mut replaced: String = text_of(&chars, 0, from);
            replaced.append(value);
            replaced.append(text_of(&chars, to, chars.len()).as_str());
            proof {
                assert(chars@.subrange(0, from as int) =~= chars@.take(from as int));
                assert(chars@.subrange(to as int, chars@.len() as int) =~= chars@.skip(to as int));
            }
            replaced
        },
        None => query.to_owned(),
    }
}

proof fn query_parts(query: Seq<char>)
    ensures
        ({
            let end = text::first_index(query, '&') as int;
            &&& end <= query.len()
            &&& query =~= query.take(end) + query.skip(end)
            &&& end < query.len() ==> query =~= query.take(end + 1) + query.skip(end + 1)
        }),
{
    text::first_index_is_first(query, '&');
}

/// A first pair and what follows it are told apart by the first `&`.
proof fn first_pair_ends(pair: Seq<char>, tail: Seq<char>)
    requires
        !pair.contains('&'),
        tail.len() > 0 ==> tail[0] == '&',
    ensures
        text::first_index(pair + tail, '&') == pair.len(),
{
    let query = pair + tail;
    assert forall|i: int| 0 <= i < pair.len() implies query[i] != '&' by {
        assert(pair.contains(pair[i]));
        assert(query[i] == pair[i]);
    }
    assert(tail.len() > 0 ==> query[pair.len() as int] == tail[0]);
    text::first_index_is_unique(query, '&', pair.len());
}

/// A name and a value are told apart by the first `=`.
proof fn first_name_ends(name: Seq<char>, value: Seq<char>)
    requires
        !name.contains('='),
    ensures
        text::first_index(name + "="@ + value, '=') == name.len(),
{
    reveal_strlit("=");
    let pair = name + "="@ + value;
    assert forall|i: int| 0 <= i < name.len() implies pair[i] != '=' by {
        assert(name.contains(name[i]));
        assert(pair[i] == name[i]);
    }
    assert(pair[name.len() as int] == '=');
    text::first_index_is_unique(pair, '=', name.len());
}

/// Putting a value into a query that has a parameter of that name, and reading it
/// back, gives the value.
pub proof fn replaced_parameters_read_back(query: Seq<char>, name: Seq<char>, value: Seq<char>)
    requires
        query_value(query, name) is Some,
        !value.contains('&'),
    ensures
        query_value(query_with(query, name, value), name) == Some(value),
    decreases query.len(),
{
    reveal_strlit("=");
    let end = text::first_index(query, '&') as int;
    let pair = query.take(end);
    let eq = text::first_index(pair, '=') as int;
    text::first_index_is_first(query, '&');
    text::first_index_is_first(pair, '=');
    let after = query_with(query, name, value);
    assert(!pair.contains('&')) by {
        assert forall|i: int| 0 <= i < pair.len() implies pair[i] != '&' by {
            assert(query[i] != '&');
        }
    }
    if eq < pair.len() && pair.take(eq) == name {
        let new_pair = name + "="@ + value;
        assert(pair.take(eq + 1) =~= name + "="@);
        assert(after =~= new_pair + query.skip(end));
        assert(!name.contains('=')) by {
            assert forall|i: int| 0 <= i < name.len() implies name[i] != '=' by {
                assert(name[i] == pair[i]);
            }
        }
        assert(!new_pair.contains('&')) by {
            assert forall|i: int| 0 <= i < new_pair.len() implies new_pair[i] != '&' by {
                if i < eq {
                    assert(new_pair[i] == pair[i]);
                } else if i == eq {
                    assert(new_pair[i] == '=');
                } else {
                    assert(new_pair[i] == value[i - eq - 1]);
                    assert(value.contains(value[i - eq - 1]));
                }
            }
        }
        first_pair_ends(new_pair, query.skip(end));
        first_name_ends(name, value);
        assert(after.take(new_pair.len() as int) =~= new_pair);
        assert(new_pair.take(eq) =~= name);
        assert(new_pair.skip(eq + 1) =~= value);
    } else {
        let rest = query.skip(end + 1);
        let new_rest = query_with(rest, name, value);
        replaced_parameters_read_back(rest, name, value);
        let tail = seq!['&'] + new_rest;
        assert(after =~= pair + tail);
        first_pair_ends(pair, tail);
        assert(after.take(end) =~= pair);
        assert(after.skip(end + 1) =~= new_rest);
    }
}

/// Putting in the value that a parameter has changes nothing.
pub proof fn replacing_by_the_same_changes_nothing(
    query: Seq<char>,
    name: Seq<char>,
    value: Seq<char>,
)
    requires
        query_value(query, name) == Some(value),
    ensures
        query_with(query, name, value) == query,
    decreases query.len(),
{
    let end = text::first_index(query, '&') as int;
    let pair = query.take(end);
    let eq = text::first_index(pair, '=') as int;
    query_parts(query);
    if eq < pair.len() && pair.take(eq) == name {
        assert(pair.take(eq + 1) + pair.skip(eq + 1) =~= pair);
    } else {
        replacing_by_the_same_changes_nothing(query.skip(end + 1), name, value);
    }
}

/// A query that is made of these pairs.
pub open spec fn query_of(pairs: Seq<Seq<char>>) -> Seq<char>
    decreases pairs.len(),
{
    if pairs.len() == 0 {
        seq![]
    } else if pairs.len() == 1 {
        pairs[0]
    } else {
        pairs[0] + seq!['&'] + query_of(pairs.skip(1))
    }
}

/// Whether a pair gives a value to the parameter called `name`.
pub open spec fn pair_for(pair: Seq<char>, name: Seq<char>) -> bool {
    (name + seq!['=']).is_prefix_of(pair)
}

/// Whether pairs can be told apart in a query, and `name` can be told from a value.
pub open spec fn pairs_ok(pairs: Seq<Seq<char>>, name: Seq<char>) -> bool {
    &&& pairs.len() > 0
    &&& forall|i: int| 0 <= i < pairs.len() ==> !(#[trigger] pairs[i]).contains('&')
    &&& !name.contains('=')
}

/// How the first pair of a query is told from the rest, and its name from its value.
proof fn query_starts(pairs: Seq<Seq<char>>, name: Seq<char>)
    requires
        pairs_ok(pairs, name),
    ensures
        ({
            let query = query_of(pairs);
            let end = text::first_index(query, '&') as int;
            let pair = query.take(end);
            let eq = text::first_index(pair, '=') as int;
            &&& end == pairs[0].len()
            &&& end <= query.len()
            &&& pair == pairs[0]
            &&& end < query.len() <==> pairs.len() > 1
            &&& pairs.len() > 1 ==> {
                &&& query.skip(end + 1) == query_of(pairs.skip(1))
                &&& query.take(end + 1) == pairs[0] + seq!['&']
                &&& query.skip(end) == seq!['&'] + query_of(pairs.skip(1))
                &&& pairs_ok(pairs.skip(1), name)
            }
            &&& pairs.len() == 1 ==> query.skip(end) == Seq::<char>::empty()
            &&& (eq < pair.len() && pair.take(eq) == name) <==> pair_for(pairs[0], name)
            &&& pair_for(pairs[0], name) ==> eq == name.len()
        }),
{
    let query = query_of(pairs);
    let pair = pairs[0];
    let tail = if pairs.len() > 1 {
        seq!['&'] + query_of(pairs.skip(1))
    } else {
        seq![]
    };
    assert(query =~= pair + tail);
    first_pair_ends(pair, tail);
    assert(query.take(pair.len() as int) =~= pair);
    if pairs.len() > 1 {
        assert(query.skip(pair.len() as int + 1) =~= query_of(pairs.skip(1)));
        assert(query.take(pair.len() as int + 1) =~= pair + seq!['&']);
        assert(query.skip(pair.len() as int) =~= tail);
        let rest = pairs.skip(1);
        assert forall|i: int| 0 <= i < rest.len() implies !(#[trigger] rest[i]).contains('&') by {
            assert(rest[i] == pairs[i + 1]);
        }
    } else {
        assert(query.skip(pair.len() as int) =~= seq![]);
    }
    text::first_index_is_first(pair, '=');
    let eq = text::first_index(pair, '=') as int;
    let named = name + seq!['='];
    if eq < pair.len() && pair.take(eq) == name {
        assert(named =~= pair.subrange(0, named.len() as int));
    }
    if pair_for(pair, name) {
        reveal_strlit("=");
        let value = pair.skip(named.len() as int);
        assert(named.is_prefix_of(pair));
        assert forall|i: int| 0 <= i < named.len() implies pair[i] == named[i] by {
            assert(pair.subrange(0, named.len() as int)[i] == named[i]);
        }
        assert(pair =~= name + "="@ + value);
        first_name_ends(name, value);
        assert(pair.take(name.len() as int) =~= name);
    }
}

/// The value of a parameter is all that follows `name=` in the first pair of the query
/// that starts so, and giving it another value changes that pair and no other.
pub proof fn the_first_pair_of_a_name_counts(
    pairs: Seq<Seq<char>>,
    name: Seq<char>,
    k: int,
    value: Seq<char>,
    other: Seq<char>,
)
    requires
        pairs_ok(pairs, name),
        0 <= k < pairs.len(),
        pairs[k] == name + seq!['='] + value,
        forall|i: int| 0 <= i < k ==> !pair_for(#[trigger] pairs[i], name),
    ensures
        query_value(query_of(pairs), name) == Some(value),
        query_with(query_of(pairs), name, other) == query_of(
            pairs.update(k, name + seq!['='] + other),
        ),
    decreases pairs.len(),
{
    let query = query_of(pairs);
    let named = name + seq!['='];
    let changed = pairs.update(k, named + other);
    query_starts(pairs, name);
    if k == 0 {
        assert(pairs[0].subrange(0, named.len() as int) =~= named);
        assert(pair_for(pairs[0], name));
        assert(pairs[0].skip(name.len() as int + 1) =~= value);
        assert(pairs[0].take(name.len() as int + 1) =~= named);
        if pairs.len() > 1 {
            assert(changed.skip(1) =~= pairs.skip(1));
            assert(query_with(query, name, other) =~= query_of(changed));
        } else {
            assert(query_with(query, name, other) =~= query_of(changed));
        }
    } else {
        let rest = pairs.skip(1);
        assert(!pair_for(pairs[0], name));
        assert forall|i: int| 0 <= i < k - 1 implies !pair_for(#[trigger] rest[i], name) by {
            assert(rest[i] == pairs[i + 1]);
        }
        the_first_pair_of_a_name_counts(rest, name, k - 1, value, other);
        assert(changed.skip(1) =~= rest.update(k - 1, named + other));
        assert(changed[0] == pairs[0]);
        assert(query_with(query, name, other) =~= query_of(changed));
    }
}

/// A parameter that no pair of the query names has no value, and giving it one changes
/// nothing.
pub proof fn a_name_without_a_pair_has_no_value(
    pairs: Seq<Seq<char>>,
    name: Seq<char>,
    other: Seq<char>,
)
    requires
        pairs_ok(pairs, name),
        forall|i: int| 0 <= i < pairs.len() ==> !pair_for(#[trigger] pairs[i], name),
    ensures
        query_value(query_of(pairs), name) is None,
        query_with(query_of(pairs), name, other) == query_of(pairs),
    decreases pairs.len(),
{
    query_starts(pairs, name);
    assert(!pair_for(pairs[0], name));
    if pairs.len() > 1 {
        let rest = pairs.skip(1);
        assert forall|i: int| 0 <= i < rest.len() implies !pair_for(#[trigger] rest[i], name) by {
            assert(rest[i] == pairs[i + 1]);
        }
        a_name_without_a_pair_has_no_value(rest, name, other);
        assert(query_with(query_of(pairs), name, other) =~= query_of(pairs));
    }
}

} // verus!
