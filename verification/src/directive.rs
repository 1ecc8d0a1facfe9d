use vstd::prelude::*;

use crate::errors::BuildError;

verus! {

/// One token of a schema directive. A directive is an unordered,
/// comma-separated sequence of `key = value` pairs; a value is a single
/// atom (an identifier or a literal, stringified verbatim) or a bracketed,
/// comma-separated list of atoms, with a trailing comma allowed both after
/// the last pair and inside a list.
pub enum Token {
    /// An identifier: a directive key, or an atom value.
    Ident(String),
    /// The `=` between a key and its value.
    Equals,
    /// The `,` between pairs and between list elements.
    Comma,
    /// The `[` opening a list value.
    OpenBracket,
    /// The `]` closing a list value.
    CloseBracket,
    /// A literal atom, stringified verbatim.
    Literal(String),
}

/// The parsed schema directive. Every field is optional at this stage:
/// the table-metadata emitter, not the parser, checks that `table_name`
/// and `keyspace` are present.
#[derive(PartialEq, Eq)]
pub struct SchemaDirective {
    pub table_name: Option<String>,
    pub keyspace: Option<String>,
    pub partition_key: Option<Vec<String>>,
    pub clustering_key: Option<Vec<String>>,
}

/// The mathematical shape of a directive value: one stringified atom, or an
/// ordered list of stringified atoms.
pub enum ValueModel {
    Atom(Seq<char>),
    List(Seq<Seq<char>>),
}

/// One recognized `key = value` pair, abstracted to character sequences.
pub struct PairModel {
    pub key: Seq<char>,
    pub value: ValueModel,
}

/// The mathematical shape of a parsed directive.
pub struct DirectiveModel {
    pub table_name: Option<Seq<char>>,
    pub keyspace: Option<Seq<char>>,
    pub partition_key: Option<Seq<Seq<char>>>,
    pub clustering_key: Option<Seq<Seq<char>>>,
}

impl View for SchemaDirective {
    type V = DirectiveModel;

    open spec fn view(&self) -> DirectiveModel {
        DirectiveModel {
            table_name: self.table_name.deep_view(),
            keyspace: self.keyspace.deep_view(),
            partition_key: self.partition_key.deep_view(),
            clustering_key: self.clustering_key.deep_view(),
        }
    }
}

/// Whether a key is one of the four the directive stores.
pub open spec fn recognized_key(key: Seq<char>) -> bool {
    ||| key == "table"@
    ||| key == "keyspace"@
    ||| key == "partition_key"@
    ||| key == "clustering_key"@
}

/// The value shape each key demands: `table` and `keyspace` take a single
/// atom, the two key lists take a bracketed list, and an unrecognized key
/// accepts either shape.
pub open spec fn value_fits_key(key: Seq<char>, value: ValueModel) -> bool {
    if key == "table"@ || key == "keyspace"@ {
        value is Atom
    } else if key == "partition_key"@ || key == "clustering_key"@ {
        value is List
    } else {
        true
    }
}

/// The directive before any pair is processed: nothing is set.
pub open spec fn empty_model() -> DirectiveModel {
    DirectiveModel { table_name: None, keyspace: None, partition_key: None, clustering_key: None }
}

/// Processing of one pair: a recognized key overwrites its field (so a later
/// occurrence wins), an unrecognized key changes nothing.
pub open spec fn apply_pair(m: DirectiveModel, p: PairModel) -> DirectiveModel {
    if p.key == "table"@ {
        match p.value {
            ValueModel::Atom(s) => DirectiveModel { table_name: Some(s), ..m },
            ValueModel::List(_) => m,
        }
    } else if p.key == "keyspace"@ {
        match p.value {
            ValueModel::Atom(s) => DirectiveModel { keyspace: Some(s), ..m },
            ValueModel::List(_) => m,
        }
    } else if p.key == "partition_key"@ {
        match p.value {
            ValueModel::List(l) => DirectiveModel { partition_key: Some(l), ..m },
            ValueModel::Atom(_) => m,
        }
    } else if p.key == "clustering_key"@ {
        match p.value {
            ValueModel::List(l) => DirectiveModel { clustering_key: Some(l), ..m },
            ValueModel::Atom(_) => m,
        }
    } else {
        m
    }
}

/// Processing of a pair sequence in order, starting from `m`.
pub open spec fn directive_fold(m: DirectiveModel, ps: Seq<PairModel>) -> DirectiveModel
    decreases ps.len(),
{
    if ps.len() == 0 {
        m
    } else {
        directive_fold(apply_pair(m, ps[0]), ps.skip(1))
    }
}

/// The directive a pair sequence denotes: the pairs processed in order over
/// the empty directive.
pub open spec fn directive_of(ps: Seq<PairModel>) -> DirectiveModel {
    directive_fold(empty_model(), ps)
}

/// The text of an atom token; `None` for punctuation.
pub open spec fn atom_text(t: Token) -> Option<Seq<char>> {
    match t {
        Token::Ident(s) => Some(s@),
        Token::Literal(s) => Some(s@),
        _ => None,
    }
}

/// Parses the remainder of a bracketed list, after its `[`: atoms separated
/// by commas up to the closing `]`, a trailing comma allowed. Returns the
/// atom texts and the number of tokens consumed, `]` included.
pub open spec fn parse_list_rest(toks: Seq<Token>) -> Option<(Seq<Seq<char>>, nat)>
    decreases toks.len(),
{
    if toks.len() == 0 {
        None
    } else if toks[0] is CloseBracket {
        Some((Seq::empty(), 1nat))
    } else {
        match atom_text(toks[0]) {
            None => None,
            Some(s) => if toks.len() >= 2 && toks[1] is Comma {
                match parse_list_rest(toks.skip(2)) {
                    None => None,
                    Some(r) => Some((seq![s] + r.0, (r.1 + 2) as nat)),
                }
            } else if toks.len() >= 2 && toks[1] is CloseBracket {
                Some((seq![s], 2nat))
            } else {
                None
            },
        }
    }
}

/// A successful list parse consumes at least the `]` and no more than the
/// remaining input.
pub proof fn lemma_parse_list_rest_consumed(toks: Seq<Token>)
    ensures
        parse_list_rest(toks) matches Some(r) ==> 1 <= r.1 <= toks.len(),
    decreases toks.len(),
{
    if toks.len() >= 2 && !(toks[0] is CloseBracket) && atom_text(toks[0]) is Some
        && toks[1] is Comma {
        lemma_parse_list_rest_consumed(toks.skip(2));
    }
}

/// Parses one value: a bracketed list, or a single atom. Returns the value
/// and the number of tokens consumed.
pub open spec fn parse_value(toks: Seq<Token>) -> Option<(ValueModel, nat)> {
    if toks.len() == 0 {
        None
    } else if toks[0] is OpenBracket {
        match parse_list_rest(toks.skip(1)) {
            None => None,
            Some(r) => Some((ValueModel::List(r.0), (r.1 + 1) as nat)),
        }
    } else {
        match atom_text(toks[0]) {
            None => None,
            Some(s) => Some((ValueModel::Atom(s), 1nat)),
        }
    }
}

/// A successful value parse consumes at least one token and no more than the
/// remaining input.
pub proof fn lemma_parse_value_consumed(toks: Seq<Token>)
    ensures
        parse_value(toks) matches Some(r) ==> 1 <= r.1 <= toks.len(),
{
    if toks.len() > 0 && toks[0] is OpenBracket {
        lemma_parse_list_rest_consumed(toks.skip(1));
    }
}

/// Parses one `key = value` pair: an identifier key, the `=`, and a value
/// whose shape fits the key. Returns the pair and the number of tokens
/// consumed.
pub open spec fn parse_pair(toks: Seq<Token>) -> Option<(PairModel, nat)> {
    if toks.len() < 2 {
        None
    } else {
        match toks[0] {
            Token::Ident(k) => if toks[1] is Equals {
                match parse_value(toks.skip(2)) {
                    None => None,
                    Some(r) => if value_fits_key(k@, r.0) {
                        Some((PairModel { key: k@, value: r.0 }, (r.1 + 2) as nat))
                    } else {
                        None
                    },
                }
            } else {
                None
            },
            _ => None,
        }
    }
}

/// A successful pair parse consumes at least three tokens and no more than
/// the remaining input.
pub proof fn lemma_parse_pair_consumed(toks: Seq<Token>)
    ensures
        parse_pair(toks) matches Some(r) ==> 3 <= r.1 <= toks.len(),
{
    if toks.len() >= 2 {
        lemma_parse_value_consumed(toks.skip(2));
    }
}

/// Parses a whole directive: pairs separated by commas, the comma after the
/// last pair optional, nothing after it.
pub open spec fn parse_pairs(toks: Seq<Token>) -> Option<Seq<PairModel>>
    decreases toks.len(),
    via parse_pairs_decreases
{
    if toks.len() == 0 {
        Some(Seq::empty())
    } else {
        match parse_pair(toks) {
            None => None,
            Some(r) => if toks.len() == r.1 {
                Some(seq![r.0])
            } else if toks[r.1 as int] is Comma {
                match parse_pairs(toks.skip(r.1 as int + 1)) {
                    None => None,
                    Some(ps) => Some(seq![r.0] + ps),
                }
            } else {
                None
            },
        }
    }
}

#[via_fn]
proof fn parse_pairs_decreases(toks: Seq<Token>) {
    lemma_parse_pair_consumed(toks);
}

/// What directive, if any, a token sequence denotes.
pub open spec fn spec_parse_directive(toks: Seq<Token>) -> Option<DirectiveModel> {
    match parse_pairs(toks) {
        None => None,
        Some(ps) => Some(directive_of(ps)),
    }
}

/// One parsed directive value, as the parser materializes it.
pub enum ParsedValue {
    Atom(String),
    List(Vec<String>),
}

impl View for ParsedValue {
    type V = ValueModel;

    open spec fn view(&self) -> ValueModel {
        match self {
            ParsedValue::Atom(s) => ValueModel::Atom(s@),
            ParsedValue::List(l) => ValueModel::List(l.deep_view()),
        }
    }
}

/// Whether a key string equals a keyword literal.
fn is_kw(s: &String, kw: &str) -> (r: bool)
    ensures
        r == (s@ == kw@),
{
    let owned: String = kw.to_owned();
    *s == owned
}

/// Parses the remainder of a bracketed list starting at `start`, just after
/// its `[`; returns the atoms and the index just past the closing `]`.
fn parse_list_at(toks: &Vec<Token>, start: usize) -> (r: Result<(Vec<String>, usize), BuildError>)
    requires
        start <= toks@.len(),
    ensures
        match r {
            Ok(p) => {
                &&& parse_list_rest(toks@.skip(start as int)) == Some(
                    (p.0.deep_view(), (p.1 - start) as nat),
                )
                &&& start < p.1 <= toks@.len()
            },
            Err(e) => {
                &&& parse_list_rest(toks@.skip(start as int)) is None
                &&& e == BuildError::MalformedDirective
            },
        },
{
    let n = toks.len();
    let mut elems: Vec<String> = Vec::new();
    let mut i: usize = start;
    loop
        invariant
            n == toks@.len(),
            start <= i <= n,
            match parse_list_rest(toks@.skip(i as int)) {
                Some(r) => parse_list_rest(toks@.skip(start as int)) == Some(
                    (elems.deep_view() + r.0, (i - start + r.1) as nat),
                ),
                None => parse_list_rest(toks@.skip(start as int)) is None,
            },
        decreases n - i,
    {
        let ghost tail = toks@.skip(i as int);
        if i >= n {
            return Err(BuildError::MalformedDirective);
        }
        assert(tail[0] == toks@[i as int]);
        match &toks[i] {
            Token::CloseBracket => {
                proof {
                    assert(elems.deep_view() + Seq::<Seq<char>>::empty() =~= elems.deep_view());
                }
                return Ok((elems, i + 1));
            },
            Token::Comma => {
                return Err(BuildError::MalformedDirective);
            },
            Token::Equals => {
                return Err(BuildError::MalformedDirective);
            },
            Token::OpenBracket => {
                return Err(BuildError::MalformedDirective);
            },
            Token::Ident(s) => {
                let atom: String = s.clone();
                if i + 1 >= n {
                    return Err(BuildError::MalformedDirective);
                }
                assert(tail[1] == toks@[i as int + 1]);
                match &toks[i + 1] {
                    Token::Comma => {
                        let ghost old_deep = elems.deep_view();
                        elems.push(atom);
                        proof {
                            assert(elems.deep_view() =~= old_deep.push(s@));
                            assert(tail.skip(2) =~= toks@.skip(i as int + 2));
                            match parse_list_rest(toks@.skip(i as int + 2)) {
                                Some(r2) => {
                                    assert(old_deep + (seq![s@] + r2.0) =~= elems.deep_view()
                                        + r2.0);
                                },
                                None => {},
                            }
                        }
                        i = i + 2;
                    },
                    Token::CloseBracket => {
                        let ghost old_deep = elems.deep_view();
                        elems.push(atom);
                        proof {
                            assert(elems.deep_view() =~= old_deep.push(s@));
                            assert(old_deep + seq![s@] =~= elems.deep_view());
                            assert(elems.deep_view() + Seq::<Seq<char>>::empty()
                                =~= elems.deep_view());
                        }
                        return Ok((elems, i + 2));
                    },
                    _ => {
                        return Err(BuildError::MalformedDirective);
                    },
                }
            },
            Token::Literal(s) => {
                let atom: String = s.clone();
                if i + 1 >= n {
                    return Err(BuildError::MalformedDirective);
                }
                assert(tail[1] == toks@[i as int + 1]);
                match &toks[i + 1] {
                    Token::Comma => {
                        let ghost old_deep = elems.deep_view();
                        elems.push(atom);
                        proof {
                            assert(elems.deep_view() =~= old_deep.push(s@));
                            assert(tail.skip(2) =~= toks@.skip(i as int + 2));
                            match parse_list_rest(toks@.skip(i as int + 2)) {
                                Some(r2) => {
                                    assert(old_deep + (seq![s@] + r2.0) =~= elems.deep_view()
                                        + r2.0);
                                },
                                None => {},
                            }
                        }
                        i = i + 2;
                    },
                    Token::CloseBracket => {
                        let ghost old_deep = elems.deep_view();
                        elems.push(atom);
                        proof {
                            assert(elems.deep_view() =~= old_deep.push(s@));
                            assert(old_deep + seq![s@] =~= elems.deep_view());
                            assert(elems.deep_view() + Seq::<Seq<char>>::empty()
                                =~= elems.deep_view());
                        }
                        return Ok((elems, i + 2));
                    },
                    _ => {
                        return Err(BuildError::MalformedDirective);
                    },
                }
            },
        }
    }
}

/// Parses one value starting at `start`: a bracketed list or a single atom;
/// returns the value and the index just past it.
fn parse_value_at(toks: &Vec<Token>, start: usize) -> (r: Result<(ParsedValue, usize), BuildError>)
    requires
        start <= toks@.len(),
    ensures
        match r {
            Ok(p) => {
                &&& parse_value(toks@.skip(start as int)) == Some((p.0@, (p.1 - start) as nat))
                &&& start < p.1 <= toks@.len()
            },
            Err(e) => {
                &&& parse_value(toks@.skip(start as int)) is None
                &&& e == BuildError::MalformedDirective
            },
        },
{
    let ghost tail = toks@.skip(start as int);
    if start >= toks.len() {
        return Err(BuildError::MalformedDirective);
    }
    assert(tail[0] == toks@[start as int]);
    match &toks[start] {
        Token::OpenBracket => {
            proof {
                assert(tail.skip(1) =~= toks@.skip(start as int + 1));
            }
            match parse_list_at(toks, start + 1) {
                Ok((elems, j)) => Ok((ParsedValue::List(elems), j)),
                Err(e) => Err(e),
            }
        },
        Token::Ident(s) => Ok((ParsedValue::Atom(s.clone()), start + 1)),
        Token::Literal(s) => Ok((ParsedValue::Atom(s.clone()), start + 1)),
        _ => Err(BuildError::MalformedDirective),
    }
}

/// The directive model the four working fields denote while parsing.
pub open spec fn partial_model(
    t: Option<String>,
    k: Option<String>,
    p: Option<Vec<String>>,
    c: Option<Vec<String>>,
) -> DirectiveModel {
    DirectiveModel {
        table_name: t.deep_view(),
        keyspace: k.deep_view(),
        partition_key: p.deep_view(),
        clustering_key: c.deep_view(),
    }
}

/// Parses a schema directive's token sequence: `key = value` pairs separated
/// by commas, the comma after the last pair optional. Later occurrences of a
/// recognized key overwrite earlier ones; unrecognized keys are accepted and
/// ignored. Fails with `MalformedDirective` exactly when the token sequence
/// does not follow the directive grammar.
pub fn parse_directive(toks: &Vec<Token>) -> (r: Result<SchemaDirective, BuildError>)
    ensures
        match r {
            Ok(d) => spec_parse_directive(toks@) == Some(d@),
            Err(e) => spec_parse_directive(toks@) is None && e == BuildError::MalformedDirective,
        },
{
    let n = toks.len();
    let mut table_name: Option<String> = None;
    let mut keyspace: Option<String> = None;
    let mut partition_key: Option<Vec<String>> = None;
    let mut clustering_key: Option<Vec<String>> = None;
    let mut i: usize = 0;
    proof {
        assert(toks@.skip(0) =~= toks@);
    }
    while i < n
        invariant
            n == toks@.len(),
            0 <= i <= n,
            match parse_pairs(toks@.skip(i as int)) {
                Some(ps) => parse_pairs(toks@) matches Some(all) && directive_of(all)
                    == directive_fold(
                    partial_model(table_name, keyspace, partition_key, clustering_key),
                    ps,
                ),
                None => parse_pairs(toks@) is None,
            },
        decreases n - i,
    {
        let ghost i0 = i as int;
        let ghost tail = toks@.skip(i0);
        let ghost m0 = partial_model(table_name, keyspace, partition_key, clustering_key);
        assert(tail[0] == toks@[i0]);
        let key: String = match &toks[i] {
            Token::Ident(s) => s.clone(),
            _ => {
                assert(parse_pairs(tail) is None);
                return Err(BuildError::MalformedDirective);
            },
        };
        if i + 1 >= n {
            assert(parse_pairs(tail) is None);
            return Err(BuildError::MalformedDirective);
        }
        assert(tail[1] == toks@[i0 + 1]);
        match &toks[i + 1] {
            Token::Equals => {},
            _ => {
                assert(parse_pairs(tail) is None);
                return Err(BuildError::MalformedDirective);
            },
        }
        proof {
            assert(tail.skip(2) =~= toks@.skip(i0 + 2));
        }
        let (value, j) = match parse_value_at(toks, i + 2) {
            Ok(p) => p,
            Err(e) => {
                assert(parse_pairs(tail) is None);
                return Err(e);
            },
        };
        let ghost p0 = PairModel { key: key@, value: value@ };
        if is_kw(&key, "table") {
            match value {
                ParsedValue::Atom(s) => {
                    table_name = Some(s);
                },
                ParsedValue::List(_) => {
                    assert(parse_pairs(tail) is None);
                    return Err(BuildError::MalformedDirective);
                },
            }
        } else if is_kw(&key, "keyspace") {
            match value {
                ParsedValue::Atom(s) => {
                    keyspace = Some(s);
                },
                ParsedValue::List(_) => {
                    assert(parse_pairs(tail) is None);
                    return Err(BuildError::MalformedDirective);
                },
            }
        } else if is_kw(&key, "partition_key") {
            match value {
                ParsedValue::List(l) => {
                    partition_key = Some(l);
                },
                ParsedValue::Atom(_) => {
                    assert(parse_pairs(tail) is None);
                    return Err(BuildError::MalformedDirective);
                },
            }
        } else if is_kw(&key, "clustering_key") {
            match value {
                ParsedValue::List(l) => {
                    clustering_key = Some(l);
                },
                ParsedValue::Atom(_) => {
                    assert(parse_pairs(tail) is None);
                    return Err(BuildError::MalformedDirective);
                },
            }
        }
        let ghost m1 = partial_model(table_name, keyspace, partition_key, clustering_key);
        proof {
            assert(value_fits_key(p0.key, p0.value));
            assert(parse_pair(tail) == Some((p0, (j - i0) as nat)));
            assert(m1 == apply_pair(m0, p0));
        }
        i = j;
        if i < n {
            assert(tail[(j - i0) as int] == toks@[j as int]);
            match &toks[i] {
                Token::Comma => {
                    i = i + 1;
                    proof {
                        assert(tail.skip(j - i0 + 1) =~= toks@.skip(j + 1));
                        match parse_pairs(toks@.skip(j + 1)) {
                            Some(ps2) => {
                                let full = seq![p0] + ps2;
                                assert(parse_pairs(tail) == Some(full));
                                assert(full[0] == p0);
                                assert(full.skip(1) =~= ps2);
                                assert(directive_fold(m0, full) == directive_fold(
                                    apply_pair(m0, p0),
                                    ps2,
                                ));
                            },
                            None => {
                                assert(parse_pairs(tail) is None);
                            },
                        }
                    }
                },
                _ => {
                    proof {
                        assert(tail.len() != (j - i0) as nat);
                        assert(parse_pairs(tail) is None);
                    }
                    return Err(BuildError::MalformedDirective);
                },
            }
        } else {
            proof {
                let single = seq![p0];
                assert(tail.len() == (j - i0) as nat);
                assert(parse_pairs(tail) == Some(single));
                assert(single[0] == p0);
                assert(single.skip(1) =~= Seq::<PairModel>::empty());
                assert(directive_fold(m0, single) == directive_fold(
                    apply_pair(m0, p0),
                    single.skip(1),
                ));
            }
        }
    }
    proof {
        assert(toks@.skip(n as int) =~= Seq::<Token>::empty());
        assert(parse_pairs(toks@.skip(n as int)) == Some(Seq::<PairModel>::empty()));
    }
    let d = SchemaDirective { table_name, keyspace, partition_key, clustering_key };
    Ok(d)
}

/// No two pairs of the sequence share a key.
pub open spec fn distinct_pair_keys(ps: Seq<PairModel>) -> bool {
    forall|i: int, j: int| 0 <= i < j < ps.len() ==> ps[i].key != ps[j].key
}

/// Processing a pair sequence is processing all but the last pair, then the
/// last pair.
pub proof fn lemma_fold_unsnoc(m: DirectiveModel, ps: Seq<PairModel>)
    requires
        ps.len() > 0,
    ensures
        directive_fold(m, ps) == apply_pair(directive_fold(m, ps.drop_last()), ps.last()),
    decreases ps.len(),
{
    if ps.len() == 1 {
        assert(ps.drop_last() =~= Seq::<PairModel>::empty());
        assert(ps.skip(1) =~= Seq::<PairModel>::empty());
    } else {
        let ps1 = ps.skip(1);
        lemma_fold_unsnoc(apply_pair(m, ps[0]), ps1);
        assert(ps1.drop_last() =~= ps.drop_last().skip(1));
        assert(ps1.last() == ps.last());
        assert(ps.drop_last()[0] == ps[0]);
    }
}

/// The atom stored by the last pair of the sequence that sets `key` to an
/// atom, searching from the end.
pub open spec fn last_atom_for(ps: Seq<PairModel>, key: Seq<char>) -> Option<Seq<char>>
    decreases ps.len(),
{
    if ps.len() == 0 {
        None
    } else if ps.last().key == key && ps.last().value is Atom {
        Some(ps.last().value->Atom_0)
    } else {
        last_atom_for(ps.drop_last(), key)
    }
}

/// The list stored by the last pair of the sequence that sets `key` to a
/// list, searching from the end.
pub open spec fn last_list_for(ps: Seq<PairModel>, key: Seq<char>) -> Option<Seq<Seq<char>>>
    decreases ps.len(),
{
    if ps.len() == 0 {
        None
    } else if ps.last().key == key && ps.last().value is List {
        Some(ps.last().value->List_0)
    } else {
        last_list_for(ps.drop_last(), key)
    }
}

/// Last write wins: each field of the directive a pair sequence denotes is
/// the value of the last pair for that field's key, whatever came before.
pub proof fn lemma_last_write_wins(ps: Seq<PairModel>)
    ensures
        directive_of(ps).table_name == last_atom_for(ps, "table"@),
        directive_of(ps).keyspace == last_atom_for(ps, "keyspace"@),
        directive_of(ps).partition_key == last_list_for(ps, "partition_key"@),
        directive_of(ps).clustering_key == last_list_for(ps, "clustering_key"@),
    decreases ps.len(),
{
    reveal_strlit("table");
    reveal_strlit("keyspace");
    reveal_strlit("partition_key");
    reveal_strlit("clustering_key");
    assert("table"@.len() == 5);
    assert("keyspace"@.len() == 8);
    assert("partition_key"@.len() == 13);
    assert("clustering_key"@.len() == 14);
    if ps.len() > 0 {
        lemma_last_write_wins(ps.drop_last());
        lemma_fold_unsnoc(empty_model(), ps);
    }
}

/// A stored atom comes from a pair of the sequence.
proof fn lemma_last_atom_to_contains(ps: Seq<PairModel>, key: Seq<char>)
    ensures
        last_atom_for(ps, key) matches Some(s) ==> ps.contains(
            PairModel { key, value: ValueModel::Atom(s) },
        ),
    decreases ps.len(),
{
    if ps.len() > 0 {
        if ps.last().key == key && ps.last().value is Atom {
            assert(ps[ps.len() - 1] == ps.last());
        } else {
            lemma_last_atom_to_contains(ps.drop_last(), key);
            match last_atom_for(ps, key) {
                Some(s) => {
                    let p = PairModel { key, value: ValueModel::Atom(s) };
                    let idx = choose|idx: int|
                        0 <= idx < ps.drop_last().len() && ps.drop_last()[idx] == p;
                    assert(ps[idx] == p);
                },
                None => {},
            }
        }
    }
}

/// With distinct keys, a pair of the sequence that sets `key` to an atom is
/// the one the stored atom comes from.
proof fn lemma_contains_to_last_atom(ps: Seq<PairModel>, key: Seq<char>, s: Seq<char>)
    requires
        distinct_pair_keys(ps),
        ps.contains(PairModel { key, value: ValueModel::Atom(s) }),
    ensures
        last_atom_for(ps, key) == Some(s),
    decreases ps.len(),
{
    let p = PairModel { key, value: ValueModel::Atom(s) };
    let idx = choose|idx: int| 0 <= idx < ps.len() && ps[idx] == p;
    if idx == ps.len() - 1 {
    } else {
        assert(ps.last().key != key);
        assert(ps.drop_last()[idx] == p);
        assert(distinct_pair_keys(ps.drop_last()));
        lemma_contains_to_last_atom(ps.drop_last(), key, s);
    }
}

/// A stored list comes from a pair of the sequence.
proof fn lemma_last_list_to_contains(ps: Seq<PairModel>, key: Seq<char>)
    ensures
        last_list_for(ps, key) matches Some(l) ==> ps.contains(
            PairModel { key, value: ValueModel::List(l) },
        ),
    decreases ps.len(),
{
    if ps.len() > 0 {
        if ps.last().key == key && ps.last().value is List {
            assert(ps[ps.len() - 1] == ps.last());
        } else {
            lemma_last_list_to_contains(ps.drop_last(), key);
            match last_list_for(ps, key) {
                Some(l) => {
                    let p = PairModel { key, value: ValueModel::List(l) };
                    let idx = choose|idx: int|
                        0 <= idx < ps.drop_last().len() && ps.drop_last()[idx] == p;
                    assert(ps[idx] == p);
                },
                None => {},
            }
        }
    }
}

/// With distinct keys, a pair of the sequence that sets `key` to a list is
/// the one the stored list comes from.
proof fn lemma_contains_to_last_list(ps: Seq<PairModel>, key: Seq<char>, l: Seq<Seq<char>>)
    requires
        distinct_pair_keys(ps),
        ps.contains(PairModel { key, value: ValueModel::List(l) }),
    ensures
        last_list_for(ps, key) == Some(l),
    decreases ps.len(),
{
    let p = PairModel { key, value: ValueModel::List(l) };
    let idx = choose|idx: int| 0 <= idx < ps.len() && ps[idx] == p;
    if idx == ps.len() - 1 {
    } else {
        assert(ps.last().key != key);
        assert(ps.drop_last()[idx] == p);
        assert(distinct_pair_keys(ps.drop_last()));
        lemma_contains_to_last_list(ps.drop_last(), key, l);
    }
}

/// Two pair sequences that hold the same pairs, each with distinct keys,
/// store the same atom for a key.
proof fn lemma_same_last_atom(ps1: Seq<PairModel>, ps2: Seq<PairModel>, key: Seq<char>)
    requires
        ps1.to_multiset() == ps2.to_multiset(),
        distinct_pair_keys(ps1),
        distinct_pair_keys(ps2),
    ensures
        last_atom_for(ps1, key) == last_atom_for(ps2, key),
{
    broadcast use vstd::seq_lib::group_to_multiset_ensures;

    lemma_last_atom_to_contains(ps1, key);
    lemma_last_atom_to_contains(ps2, key);
    match last_atom_for(ps1, key) {
        Some(s) => {
            let p = PairModel { key, value: ValueModel::Atom(s) };
            assert(ps1.to_multiset().count(p) > 0);
            assert(ps2.to_multiset().count(p) > 0);
            lemma_contains_to_last_atom(ps2, key, s);
        },
        None => {
            match last_atom_for(ps2, key) {
                Some(s) => {
                    let p = PairModel { key, value: ValueModel::Atom(s) };
                    assert(ps2.to_multiset().count(p) > 0);
                    assert(ps1.to_multiset().count(p) > 0);
                    lemma_contains_to_last_atom(ps1, key, s);
                },
                None => {},
            }
        },
    }
}

/// As `lemma_same_last_atom`, for list values.
proof fn lemma_same_last_list(ps1: Seq<PairModel>, ps2: Seq<PairModel>, key: Seq<char>)
    requires
        ps1.to_multiset() == ps2.to_multiset(),
        distinct_pair_keys(ps1),
        distinct_pair_keys(ps2),
    ensures
        last_list_for(ps1, key) == last_list_for(ps2, key),
{
    broadcast use vstd::seq_lib::group_to_multiset_ensures;

    lemma_last_list_to_contains(ps1, key);
    lemma_last_list_to_contains(ps2, key);
    match last_list_for(ps1, key) {
        Some(l) => {
            let p = PairModel { key, value: ValueModel::List(l) };
            assert(ps1.to_multiset().count(p) > 0);
            assert(ps2.to_multiset().count(p) > 0);
            lemma_contains_to_last_list(ps2, key, l);
        },
        None => {
            match last_list_for(ps2, key) {
                Some(l) => {
                    let p = PairModel { key, value: ValueModel::List(l) };
                    assert(ps2.to_multiset().count(p) > 0);
                    assert(ps1.to_multiset().count(p) > 0);
                    lemma_contains_to_last_list(ps1, key, l);
                },
                None => {},
            }
        },
    }
}

/// Order independence: two pair sequences that hold the same pairs, each
/// with pairwise-distinct keys, denote the same directive, whatever order
/// the pairs appear in.
pub proof fn lemma_order_independence(ps1: Seq<PairModel>, ps2: Seq<PairModel>)
    requires
        ps1.to_multiset() == ps2.to_multiset(),
        distinct_pair_keys(ps1),
        distinct_pair_keys(ps2),
    ensures
        directive_of(ps1) == directive_of(ps2),
{
    lemma_last_write_wins(ps1);
    lemma_last_write_wins(ps2);
    lemma_same_last_atom(ps1, ps2, "table"@);
    lemma_same_last_atom(ps1, ps2, "keyspace"@);
    lemma_same_last_list(ps1, ps2, "partition_key"@);
    lemma_same_last_list(ps1, ps2, "clustering_key"@);
}

/// Unknown-key tolerance: a pair whose key is not one of the four recognized
/// keys has no effect; removing it leaves the denoted directive unchanged.
pub proof fn lemma_unknown_key_ignored(ps: Seq<PairModel>, i: int)
    requires
        0 <= i < ps.len(),
        !recognized_key(ps[i].key),
    ensures
        directive_of(ps.remove(i)) == directive_of(ps),
    decreases ps.len(),
{
    lemma_fold_unsnoc(empty_model(), ps);
    if i == ps.len() - 1 {
        assert(ps.remove(i) =~= ps.drop_last());
    } else {
        lemma_fold_unsnoc(empty_model(), ps.remove(i));
        assert(ps.drop_last()[i] == ps[i]);
        lemma_unknown_key_ignored(ps.drop_last(), i);
        assert(ps.remove(i).drop_last() =~= ps.drop_last().remove(i));
        assert(ps.remove(i).last() == ps.last());
    }
}

} // verus!
