//! Properties of the grammar, proved from its definition.
use vstd::prelude::*;
use crate::ast::{NodeModel, SelectionModel, Text, ValueModel};
use crate::error::{ErrorKind, Fail};
use crate::grammar::{
    arguments, at_ellipsis, definition, definitions_rest, document, has_key, is_spread, pairs_rest,
    selection, selection_set, selections_rest, value, word_on,
};
use crate::lexical::{at, is_name_start, name_at, name_end, name_text, skip, skip_from};

verus! {

/// No two pairs carry the same name.
pub open spec fn unique_names(ps: Seq<(Text, ValueModel)>) -> bool {
    forall|i: int, j: int| 0 <= i < j < ps.len() ==> (#[trigger] ps[i]).0 != (#[trigger] ps[j]).0
}

/// Pairs that parse (arguments, directive arguments, object fields) never
/// repeat a name: a repeat is an error, not a choice of one of the values.
pub proof fn lemma_parsed_pairs_unique(
    s: Text,
    p: int,
    d: nat,
    close: char,
    allow_empty: bool,
    acc: Seq<(Text, ValueModel)>,
)
    requires
        unique_names(acc),
    ensures
        pairs_rest(s, p, d, close, allow_empty, acc) matches Ok((ps, _)) ==> unique_names(ps),
    decreases s.len() - p,
{
    if 0 <= p < s.len() && s[p] != close && is_name_start(s[p]) {
        let k = name_text(s, p);
        if !has_key(acc, k) {
            let c = skip(s, name_end(s, p));
            if at(s, c, ':') {
                match value(s, skip(s, c + 1), d) {
                    Ok((v, e)) => {
                        if p < e <= s.len() {
                            let next = acc.push((k, v));
                            assert forall|i: int, j: int| 0 <= i < j < next.len() implies (
                            #[trigger] next[i]).0 != (#[trigger] next[j]).0 by {
                                if j == acc.len() {
                                    assert(next[i] == acc[i]);
                                    if acc[i].0 == k {
                                        assert(has_key(acc, k));
                                    }
                                } else {
                                    assert(next[i] == acc[i] && next[j] == acc[j]);
                                }
                            }
                            lemma_parsed_pairs_unique(s, e, d, close, allow_empty, next);
                        }
                    },
                    Err(_) => {},
                }
            }
        }
    }
}

/// The argument list of a field or directive, when it parses, has unique names.
pub proof fn lemma_arguments_unique(s: Text, p: int, d: nat)
    ensures
        arguments(s, p, d) matches Ok((args, _)) ==> unique_names(args),
{
    lemma_parsed_pairs_unique(s, skip(s, p + 1), d, ')', false, Seq::empty());
}

/// A name that repeats one before it in the same list is rejected at the
/// repeat with `DuplicateKey`, whatever follows it.
pub proof fn lemma_repeated_name_rejected(
    s: Text,
    p: int,
    d: nat,
    close: char,
    allow_empty: bool,
    acc: Seq<(Text, ValueModel)>,
    i: int,
)
    requires
        name_at(s, p),
        s[p] != close,
        0 <= i < acc.len(),
        acc[i].0 == name_text(s, p),
    ensures
        pairs_rest(s, p, d, close, allow_empty, acc) == Err::<(Seq<(Text, ValueModel)>, int), Fail>(
            (ErrorKind::DuplicateKey, p),
        ),
{
    assert(has_key(acc, name_text(s, p)));
}

/// A comma between tokens is skipped like a blank, so a trailing comma before
/// a closing bracket leaves the next token where it would be without it.
pub proof fn lemma_comma_is_skipped(s: Text, p: int)
    requires
        0 <= p < s.len(),
        s[p] == ',',
    ensures
        skip(s, p) == skip(s, p + 1),
{
}

/// After `...`, a name other than `on` makes a fragment spread of that name;
/// `on`, a directive or a brace make an inline fragment.
pub proof fn lemma_spread_or_inline(s: Text, p: int, d: nat)
    requires
        at_ellipsis(s, p),
    ensures
        selection(s, p, d) matches Ok((x, _)) ==> ({
            let q = skip(s, p + 3);
            &&& (x is Spread <==> is_spread(s, q))
            &&& (x is Inline <==> !is_spread(s, q))
            &&& x is Spread ==> x->Spread_name == name_text(s, q) && name_text(s, q) != word_on()
            &&& (x is Inline && name_at(s, q)) ==> name_text(s, q) == word_on()
        }),
{
}

proof fn lemma_skip_bounds(s: Text, p: int, in_comment: bool)
    requires
        0 <= p <= s.len(),
    ensures
        p <= skip_from(s, p, in_comment) <= s.len(),
    decreases s.len() - p,
{
    if p < s.len() {
        lemma_skip_bounds(s, p + 1, s[p] != '\n');
        lemma_skip_bounds(s, p + 1, false);
        lemma_skip_bounds(s, p + 1, true);
    }
}

/// `ds` are definitions that follow one another from `ps[0]`, each ending
/// where the next begins, the last at the end of `s`.
pub open spec fn tiles(s: Text, ps: Seq<int>, ds: Seq<NodeModel>) -> bool {
    &&& ps.len() == ds.len() + 1
    &&& ps[ds.len() as int] == s.len()
    &&& forall|k: int|
        0 <= k < ds.len() ==> 0 <= ps[k] < ps[k + 1] <= s.len() && #[trigger] definition(s, ps[k])
            == Ok::<(NodeModel, int), Fail>((ds[k], ps[k + 1]))
}

proof fn lemma_rest_tiles(s: Text, p: int, acc: Seq<NodeModel>) -> (ps: Seq<int>)
    requires
        0 <= p <= s.len(),
    ensures
        definitions_rest(s, p, acc) matches Ok(ds) ==> {
            &&& 1 <= ds.len()
            &&& acc.len() <= ds.len()
            &&& ds.subrange(0, acc.len() as int) == acc
            &&& ps.len() > 0 && ps[0] == p
            &&& tiles(s, ps, ds.subrange(acc.len() as int, ds.len() as int))
        },
    decreases s.len() - p,
{
    if p >= s.len() {
        if let Ok(ds) = definitions_rest(s, p, acc) {
            assert(ds.subrange(0, acc.len() as int) =~= acc);
            assert(ds.subrange(acc.len() as int, ds.len() as int).len() == 0);
        }
        seq![p]
    } else {
        match definition(s, p) {
            Ok((x, e)) => {
                if p < e <= s.len() {
                    let next = acc.push(x);
                    let rest = lemma_rest_tiles(s, e, next);
                    let ps = seq![p] + rest;
                    if let Ok(ds) = definitions_rest(s, p, acc) {
                        let tail = ds.subrange(next.len() as int, ds.len() as int);
                        let mine = ds.subrange(acc.len() as int, ds.len() as int);
                        assert(ds.subrange(0, next.len() as int)[acc.len() as int] == x);
                        assert(ds.subrange(0, acc.len() as int) =~= ds.subrange(
                            0,
                            next.len() as int,
                        ).subrange(0, acc.len() as int));
                        assert(ps[mine.len() as int] == rest[tail.len() as int]);
                        assert forall|k: int| 0 <= k < mine.len() implies 0 <= ps[k] < ps[k + 1]
                            <= s.len() && #[trigger] definition(s, ps[k]) == Ok::<
                            (NodeModel, int),
                            Fail,
                        >((mine[k], ps[k + 1])) by {
                            if k == 0 {
                                assert(mine[0] == ds[acc.len() as int]);
                                assert(ds.subrange(0, next.len() as int)[acc.len() as int]
                                    == ds[acc.len() as int]);
                            } else {
                                assert(mine[k] == tail[k - 1]);
                                assert(ps[k] == rest[k - 1]);
                                assert(ps[k + 1] == rest[k]);
                            }
                        }
                    }
                    ps
                } else {
                    seq![p]
                }
            },
            Err(_) => seq![p],
        }
    }
}

proof fn lemma_tiles_rest(s: Text, ps: Seq<int>, ds: Seq<NodeModel>, k: int)
    requires
        tiles(s, ps, ds),
        0 <= k <= ds.len(),
        1 <= ds.len(),
    ensures
        definitions_rest(s, ps[k], ds.subrange(0, k)) == Ok::<Seq<NodeModel>, Fail>(ds),
    decreases ds.len() - k,
{
    if k < ds.len() {
        lemma_tiles_rest(s, ps, ds, k + 1);
        assert(definition(s, ps[k]) == Ok::<(NodeModel, int), Fail>((ds[k], ps[k + 1])));
        assert(ds.subrange(0, k).push(ds[k]) =~= ds.subrange(0, k + 1));
    } else {
        assert(ds.subrange(0, k) =~= ds);
    }
}

/// A document parses to `ds` exactly when `ds` is not empty and the input,
/// from its first token, is made of the definitions `ds[0]`, `ds[1]`, ...
/// one after another up to its end: every top-level construct is kept, in
/// source order, and nothing else.
pub proof fn lemma_document_is_its_definitions(s: Text, ds: Seq<NodeModel>)
    ensures
        document(s) == Ok::<Seq<NodeModel>, Fail>(ds) <==> (1 <= ds.len() && exists|ps: Seq<int>|
            ps[0] == skip(s, 0) && #[trigger] tiles(s, ps, ds)),
{
    lemma_skip_bounds(s, 0, false);
    let ps = lemma_rest_tiles(s, skip(s, 0), Seq::empty());
    if document(s) == Ok::<Seq<NodeModel>, Fail>(ds) {
        assert(ds.subrange(0, 0int) =~= Seq::<NodeModel>::empty());
        assert(ds.subrange(0, ds.len() as int) =~= ds);
        assert(tiles(s, ps, ds));
    }
    if 1 <= ds.len() && exists|ps: Seq<int>| ps[0] == skip(s, 0) && #[trigger] tiles(s, ps, ds) {
        let qs = choose|qs: Seq<int>| qs[0] == skip(s, 0) && #[trigger] tiles(s, qs, ds);
        lemma_tiles_rest(s, qs, ds, 0);
        assert(ds.subrange(0, 0int) =~= Seq::<NodeModel>::empty());
    }
}

/// `xs` are selections that follow one another from `ps[0]`, each ending
/// where the next begins.
pub open spec fn selections_tile(s: Text, ps: Seq<int>, xs: Seq<SelectionModel>, d: nat) -> bool {
    &&& ps.len() == xs.len() + 1
    &&& forall|k: int|
        0 <= k < xs.len() ==> 0 <= ps[k] < ps[k + 1] <= s.len() && #[trigger] selection(s, ps[k], d)
            == Ok::<(SelectionModel, int), Fail>((xs[k], ps[k + 1]))
}

proof fn lemma_selections_rest_tiles(s: Text, p: int, d: nat, acc: Seq<SelectionModel>) -> (ps: Seq<
    int,
>)
    requires
        0 <= p <= s.len(),
    ensures
        selections_rest(s, p, d, acc) matches Ok((xs, e)) ==> {
            &&& 1 <= xs.len()
            &&& acc.len() <= xs.len()
            &&& xs.subrange(0, acc.len() as int) == acc
            &&& ps.len() > 0 && ps[0] == p
            &&& selections_tile(s, ps, xs.subrange(acc.len() as int, xs.len() as int), d)
            &&& at(s, ps[ps.len() - 1], '}')
            &&& e == skip(s, ps[ps.len() - 1] + 1)
        },
    decreases s.len() - p,
{
    if p >= s.len() || s[p] == '}' {
        if let Ok((xs, e)) = selections_rest(s, p, d, acc) {
            assert(xs.subrange(0, acc.len() as int) =~= acc);
            assert(xs.subrange(acc.len() as int, xs.len() as int).len() == 0);
        }
        seq![p]
    } else {
        match selection(s, p, d) {
            Ok((x, e)) => {
                if p < e <= s.len() {
                    let next = acc.push(x);
                    let rest = lemma_selections_rest_tiles(s, e, d, next);
                    let ps = seq![p] + rest;
                    if let Ok((xs, _)) = selections_rest(s, p, d, acc) {
                        let tail = xs.subrange(next.len() as int, xs.len() as int);
                        let mine = xs.subrange(acc.len() as int, xs.len() as int);
                        assert(xs.subrange(0, next.len() as int)[acc.len() as int] == x);
                        assert(xs.subrange(0, acc.len() as int) =~= xs.subrange(
                            0,
                            next.len() as int,
                        ).subrange(0, acc.len() as int));
                        assert(ps[ps.len() - 1] == rest[rest.len() - 1]);
                        assert forall|k: int| 0 <= k < mine.len() implies 0 <= ps[k] < ps[k + 1]
                            <= s.len() && #[trigger] selection(s, ps[k], d) == Ok::<
                            (SelectionModel, int),
                            Fail,
                        >((mine[k], ps[k + 1])) by {
                            if k == 0 {
                                assert(mine[0] == xs[acc.len() as int]);
                                assert(xs.subrange(0, next.len() as int)[acc.len() as int]
                                    == xs[acc.len() as int]);
                            } else {
                                assert(mine[k] == tail[k - 1]);
                                assert(ps[k] == rest[k - 1]);
                                assert(ps[k + 1] == rest[k]);
                            }
                        }
                    }
                    ps
                } else {
                    seq![p]
                }
            },
            Err(_) => seq![p],
        }
    }
}

proof fn lemma_tiles_selections_rest(
    s: Text,
    ps: Seq<int>,
    xs: Seq<SelectionModel>,
    d: nat,
    k: int,
)
    requires
        selections_tile(s, ps, xs, d),
        at(s, ps[xs.len() as int], '}'),
        0 <= k <= xs.len(),
        1 <= xs.len(),
    ensures
        selections_rest(s, ps[k], d, xs.subrange(0, k)) == Ok::<(Seq<SelectionModel>, int), Fail>(
            (xs, skip(s, ps[xs.len() as int] + 1)),
        ),
    decreases xs.len() - k,
{
    if k < xs.len() {
        lemma_tiles_selections_rest(s, ps, xs, d, k + 1);
        assert(selection(s, ps[k], d) == Ok::<(SelectionModel, int), Fail>((xs[k], ps[k + 1])));
        assert(xs.subrange(0, k).push(xs[k]) =~= xs.subrange(0, k + 1));
    } else {
        assert(xs.subrange(0, k) =~= xs);
    }
}

/// A selection set parses to `xs` exactly when it opens with `{`, and the
/// selections `xs[0]`, `xs[1]`, ... follow one another from its first token,
/// at least one, up to a `}`: children keep their source order, and each
/// child's own set is nested inside it.
pub proof fn lemma_selection_set_is_its_selections(
    s: Text,
    p: int,
    d: nat,
    xs: Seq<SelectionModel>,
    e: int,
)
    requires
        0 <= p < s.len(),
    ensures
        selection_set(s, p, d) == Ok::<(Seq<SelectionModel>, int), Fail>((xs, e)) <==> (at(
            s,
            p,
            '{',
        ) && 1 <= xs.len() && exists|ps: Seq<int>|
            ps[0] == skip(s, p + 1) && #[trigger] selections_tile(s, ps, xs, d) && at(
                s,
                ps[xs.len() as int],
                '}',
            ) && e == skip(s, ps[xs.len() as int] + 1)),
{
    lemma_skip_bounds(s, p + 1, false);
    let ps = lemma_selections_rest_tiles(s, skip(s, p + 1), d, Seq::empty());
    if selection_set(s, p, d) == Ok::<(Seq<SelectionModel>, int), Fail>((xs, e)) {
        assert(xs.subrange(0, 0int) =~= Seq::<SelectionModel>::empty());
        assert(xs.subrange(0, xs.len() as int) =~= xs);
        assert(selections_tile(s, ps, xs, d));
    }
    if at(s, p, '{') && 1 <= xs.len() && exists|ps: Seq<int>|
        ps[0] == skip(s, p + 1) && #[trigger] selections_tile(s, ps, xs, d) && at(
            s,
            ps[xs.len() as int],
            '}',
        ) && e == skip(s, ps[xs.len() as int] + 1) {
        let qs = choose|qs: Seq<int>|
            qs[0] == skip(s, p + 1) && #[trigger] selections_tile(s, qs, xs, d) && at(
                s,
                qs[xs.len() as int],
                '}',
            ) && e == skip(s, qs[xs.len() as int] + 1);
        lemma_tiles_selections_rest(s, qs, xs, d, 0);
        assert(xs.subrange(0, 0int) =~= Seq::<SelectionModel>::empty());
    }
}

} // verus!
