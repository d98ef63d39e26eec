//! Laws of the language, proved from its definition.

use crate::error::EvalError;
use crate::evaluator::State;
use crate::evaluator::marker_of;
use crate::model::{
    apply, apply_def, bind, bound, done, each, eval, eval_def, eval_two, item, lemma_each_failed,
    lookup, put_back, restore, run_concat, run_define, run_let, Behavior, Effect, Env, Outcome,
    Outcomes, Pass, Saved, World,
};
use crate::node::Tree;
use crate::page::RefDefModel;
use crate::placeholder::{
    action_char, encode, field_of, hex6, hex_digit, lemma_token_found, prepend, substituted, token,
    token_at, PlaceholderAction,
};
use crate::text::{count, decimal, join, lemma_concat_add, lemma_join_split, split};
use vstd::prelude::*;

verus! {

/// Without argument, the version directive gives the version it was made
/// from.
pub proof fn law_version_full(version: Seq<char>, world: World, env: Env, depth: nat)
    ensures
        apply(
            Behavior::Version { components: split(version, '.') },
            world,
            env,
            Seq::empty(),
            depth,
        ) == done(env, version),
{
    reveal(apply_def);
    lemma_join_split(version, '.');
}

/// With a literal argument, the version directive gives as many components
/// of the version as the argument has, or all of them where it has more;
/// with an empty argument, it gives nothing.
pub proof fn law_version_truncates(
    version: Seq<char>,
    arg: Seq<char>,
    file: Option<usize>,
    world: World,
    env: Env,
    depth: nat,
)
    ensures
        apply(
            Behavior::Version { components: split(version, '.') },
            world,
            env,
            seq![Tree::Leaf { text: arg, file }],
            depth,
        ) == done(
            env,
            if arg.len() == 0 {
                Seq::empty()
            } else if count(arg, '.') + 1 >= split(version, '.').len() {
                version
            } else {
                join(split(version, '.').take(count(arg, '.') as int + 1), '.')
            },
        ),
{
    reveal(apply_def);
    reveal(eval_def);
    lemma_join_split(version, '.');
    if arg.len() == 0 {
        assert(arg =~= Seq::<char>::empty());
    }
}

/// The evaluation of `first`, followed by `second`.
pub open spec fn chained(first: Outcomes, second: Outcomes) -> Outcomes {
    Outcomes {
        env: second.env,
        effects: first.effects + second.effects,
        result: match second.result {
            Ok(texts) => Ok(first.texts() + texts),
            Err(e) => Err(e),
        },
    }
}

/// The first arguments of a list evaluate as they do without the others.
pub proof fn lemma_values_prefix(
    world: World,
    env: Env,
    a: Seq<Tree>,
    b: Seq<Tree>,
    count: nat,
    depth: nat,
)
    requires
        count <= a.len(),
    ensures
        each(Pass::Value, world, env, a + b, count, depth) == each(
            Pass::Value,
            world,
            env,
            a,
            count,
            depth,
        ),
    decreases count,
{
    if count > 0 {
        lemma_values_prefix(world, env, a, b, (count - 1) as nat, depth);
        let before = each(Pass::Value, world, env, a, (count - 1) as nat, depth);
        assert((a + b)[count - 1] == a[count - 1]);
        assert(item(Pass::Value, world, before.env, a + b, (count - 1) as nat, depth) == item(
            Pass::Value,
            world,
            before.env,
            a,
            (count - 1) as nat,
            depth,
        ));
    }
}

/// The arguments `a` followed by the first `count` of `b` evaluate as `a`
/// does, followed by those of `b` in the environment that `a` left.
pub proof fn lemma_values_append(
    world: World,
    env: Env,
    a: Seq<Tree>,
    b: Seq<Tree>,
    count: nat,
    depth: nat,
)
    requires
        count <= b.len(),
        each(Pass::Value, world, env, a, a.len(), depth).result is Ok,
    ensures
        ({
            let first = each(Pass::Value, world, env, a, a.len(), depth);
            each(Pass::Value, world, env, a + b, a.len() + count, depth) == chained(
                first,
                each(Pass::Value, world, first.env, b, count, depth),
            )
        }),
    decreases count,
{
    let first = each(Pass::Value, world, env, a, a.len(), depth);
    let whole = each(Pass::Value, world, env, a + b, a.len() + count, depth);
    let rest = each(Pass::Value, world, first.env, b, count, depth);
    if count == 0 {
        lemma_values_prefix(world, env, a, b, a.len(), depth);
        assert(first.texts() + Seq::<Seq<char>>::empty() =~= first.texts());
        assert(first.effects + Seq::<Effect>::empty() =~= first.effects);
        assert(whole =~= chained(first, rest));
    } else {
        lemma_values_append(world, env, a, b, (count - 1) as nat, depth);
        let before = each(Pass::Value, world, env, a + b, (a.len() + count - 1) as nat, depth);
        let rest_before = each(Pass::Value, world, first.env, b, (count - 1) as nat, depth);
        assert(before == chained(first, rest_before));
        match rest_before.result {
            Err(_) => {
                assert(whole == before);
                assert(rest == rest_before);
            },
            Ok(texts) => {
                assert((a + b)[a.len() + count - 1] == b[count - 1]);
                let last = item(Pass::Value, world, rest_before.env, b, (count - 1) as nat, depth);
                assert(last == item(
                    Pass::Value,
                    world,
                    before.env,
                    a + b,
                    (a.len() + count - 1) as nat,
                    depth,
                ));
                assert((first.effects + rest_before.effects) + last.effects =~= first.effects + (
                rest_before.effects + last.effects));
                match last.result {
                    Ok(text) => {
                        assert((first.texts() + texts).push(text) =~= first.texts() + texts.push(
                            text,
                        ));
                    },
                    Err(_) => {},
                }
                assert(whole =~= chained(first, rest));
            },
        }
    }
}

/// Concatenation is associative: the arguments `a` followed by the
/// arguments `b` give the text of `a` followed by the text of `b`, the
/// latter evaluated in the environment that `a` left. Where `a` fails, so
/// do both together, in the same way.
pub proof fn law_concat_associative(
    world: World,
    env: Env,
    a: Seq<Tree>,
    b: Seq<Tree>,
    depth: nat,
)
    ensures
        ({
            let first = run_concat(world, env, a, depth);
            let second = run_concat(world, first.env, b, depth);
            let both = run_concat(world, env, a + b, depth);
            match first.result {
                Err(_) => both == first,
                Ok(x) => both == (Outcome {
                    env: second.env,
                    effects: first.effects + second.effects,
                    result: match second.result {
                        Ok(y) => Ok(x + y),
                        Err(e) => Err(e),
                    },
                }),
            }
        }),
{
    let first = each(Pass::Value, world, env, a, a.len(), depth);
    if first.result is Ok {
        lemma_values_append(world, env, a, b, b.len(), depth);
        let second = each(Pass::Value, world, first.env, b, b.len(), depth);
        if second.result is Ok {
            lemma_concat_add(first.texts(), second.texts());
        }
    } else {
        lemma_values_prefix(world, env, a, b, a.len(), depth);
        lemma_each_failed(Pass::Value, world, env, a + b, a.len(), (a + b).len(), depth);
    }
}

/// Whether the first `count` pairs of `saved` bind `key`.
pub open spec fn binds(saved: Seq<Saved>, key: Seq<char>) -> bool {
    exists|i: int| 0 <= i < saved.len() && #[trigger] saved[i].key == key
}

/// Whether `saved` binds the key of its entry `index` for the first time
/// there.
pub open spec fn first_bound_at(saved: Seq<Saved>, index: int) -> bool {
    0 <= index < saved.len() && forall|j: int|
        0 <= j < index ==> #[trigger] saved[j].key != saved[index].key
}

/// Putting variables back leaves every other variable as it is.
pub proof fn lemma_restore_frame(ctx: Map<Seq<char>, Tree>, saved: Seq<Saved>, key: Seq<char>)
    requires
        !binds(saved, key),
    ensures
        bound(restore(ctx, saved), key) == bound(ctx, key),
    decreases saved.len(),
{
    if saved.len() > 0 {
        let front = saved.drop_last();
        assert(saved[saved.len() - 1].key != key);
        assert(!binds(front, key)) by {
            if binds(front, key) {
                let i = choose|i: int| 0 <= i < front.len() && #[trigger] front[i].key == key;
                assert(saved[i].key == key);
            }
        }
        lemma_restore_frame(put_back(ctx, saved.last()), front, key);
    }
}

/// Putting variables back gives each of them the binding that was saved
/// when it was first bound.
pub proof fn lemma_restore_first(ctx: Map<Seq<char>, Tree>, saved: Seq<Saved>, index: int)
    requires
        first_bound_at(saved, index),
    ensures
        bound(restore(ctx, saved), saved[index].key) == saved[index].previous,
    decreases saved.len(),
{
    let front = saved.drop_last();
    let key = saved[index].key;
    if index == saved.len() - 1 {
        assert(!binds(front, key)) by {
            if binds(front, key) {
                let i = choose|i: int| 0 <= i < front.len() && #[trigger] front[i].key == key;
                assert(saved[i].key == key);
            }
        }
        lemma_restore_frame(put_back(ctx, saved.last()), front, key);
    } else {
        assert(first_bound_at(front, index)) by {
            assert forall|j: int| 0 <= j < index implies #[trigger] front[j].key
                != front[index].key by {
                assert(saved[j].key != saved[index].key);
            }
        }
        lemma_restore_first(put_back(ctx, saved.last()), front, index);
    }
}

/// After a call of `let`, whether it has failed or not and whatever the
/// other arguments have done, every variable that the call has bound has
/// the binding again that it had when the call first bound it.
pub proof fn law_let_restores(world: World, env: Env, args: Seq<Tree>, depth: nat, index: int)
    requires
        args.len() > 0,
        args[0] is Group,
        args[0]->children.len() % 2 == 0,
        first_bound_at(
            bind(world, env, args[0]->children, args[0]->children.len() / 2, depth).saved,
            index,
        ),
    ensures
        ({
            let children = args[0]->children;
            let saved = bind(world, env, children, children.len() / 2, depth).saved;
            bound(run_let(world, env, args, depth).env.ctx, saved[index].key)
                == saved[index].previous
        }),
{
    let children = args[0]->children;
    let bindings = bind(world, env, children, children.len() / 2, depth);
    match bindings.failure {
        Some(_) => {
            lemma_restore_first(bindings.env.ctx, bindings.saved, index);
        },
        None => {
            let body = run_concat(world, bindings.env, args.drop_first(), depth);
            lemma_restore_first(body.env.ctx, bindings.saved, index);
        },
    }
}

/// Whether every tree of `trees` is literal text.
pub open spec fn literal(trees: Seq<Tree>) -> bool {
    forall|i: int| 0 <= i < trees.len() ==> #[trigger] trees[i] is Leaf
}

/// Binding pairs of literal keys and values cannot fail, binds the keys in
/// order, and saves for each key that it binds for the first time the
/// binding that the key had before the call.
pub proof fn lemma_bind_literals(world: World, env: Env, pairs: Seq<Tree>, count: nat, depth: nat)
    requires
        literal(pairs),
        2 * count <= pairs.len(),
    ensures
        ({
            let bindings = bind(world, env, pairs, count, depth);
            &&& bindings.failure is None
            &&& bindings.saved.len() == count
            &&& forall|i: int|
                0 <= i < count ==> (#[trigger] bindings.saved[i]).key == pairs[2 * i]->text
            &&& forall|key: Seq<char>|
                !binds(bindings.saved, key) ==> #[trigger] bound(bindings.env.ctx, key) == bound(
                    env.ctx,
                    key,
                )
            &&& forall|i: int|
                first_bound_at(bindings.saved, i) ==> (#[trigger] bindings.saved[i]).previous
                    == bound(env.ctx, bindings.saved[i].key)
        }),
    decreases count,
{
    reveal(eval_def);
    let bindings = bind(world, env, pairs, count, depth);
    if count > 0 {
        lemma_bind_literals(world, env, pairs, (count - 1) as nat, depth);
        let before = bind(world, env, pairs, (count - 1) as nat, depth);
        let key_tree = pairs[2 * (count - 1)];
        let value_tree = pairs[2 * (count - 1) + 1];
        assert(key_tree is Leaf);
        assert(value_tree is Leaf);
        let key = key_tree->text;
        let both = eval_two(world, before.env, key_tree, value_tree, depth);
        assert(both.env == before.env);
        assert(both.result == Ok::<Seq<Seq<char>>, EvalError>(seq![key, value_tree->text]));
        assert(bindings.saved == before.saved.push(
            Saved { key, previous: bound(before.env.ctx, key) },
        ));
        assert forall|k: Seq<char>| !binds(bindings.saved, k) implies #[trigger] bound(
            bindings.env.ctx,
            k,
        ) == bound(env.ctx, k) by {
            assert(bindings.saved[count - 1].key == key);
            assert(k != key);
            assert(!binds(before.saved, k)) by {
                if binds(before.saved, k) {
                    let i = choose|i: int|
                        0 <= i < before.saved.len() && #[trigger] before.saved[i].key == k;
                    assert(bindings.saved[i].key == k);
                }
            }
            assert(bound(before.env.ctx, k) == bound(env.ctx, k));
        }
        assert forall|i: int| first_bound_at(bindings.saved, i) implies (
        #[trigger] bindings.saved[i]).previous == bound(env.ctx, bindings.saved[i].key) by {
            if i == count - 1 {
                assert(!binds(before.saved, key)) by {
                    if binds(before.saved, key) {
                        let j = choose|j: int|
                            0 <= j < before.saved.len() && #[trigger] before.saved[j].key == key;
                        assert(bindings.saved[j].key == bindings.saved[i].key);
                    }
                }
            } else {
                assert(first_bound_at(before.saved, i)) by {
                    assert forall|j: int| 0 <= j < i implies #[trigger] before.saved[j].key
                        != before.saved[i].key by {
                        assert(bindings.saved[j].key != bindings.saved[i].key);
                    }
                }
            }
        }
    }
}

/// `let` restores bindings exactly: where the keys and the values of a call
/// are literal, every variable that the call names has afterwards the
/// binding that it had before, whether the call has failed or not and
/// whatever its other arguments have done, calls of `let` among them.
pub proof fn law_let_restores_bindings(
    world: World,
    env: Env,
    args: Seq<Tree>,
    depth: nat,
    pair: int,
)
    requires
        args.len() > 0,
        args[0] is Group,
        args[0]->children.len() % 2 == 0,
        literal(args[0]->children),
        0 <= pair < args[0]->children.len() / 2,
    ensures
        ({
            let key = args[0]->children[2 * pair]->text;
            bound(run_let(world, env, args, depth).env.ctx, key) == bound(env.ctx, key)
        }),
{
    let children = args[0]->children;
    let count = children.len() / 2;
    let key = children[2 * pair]->text;
    lemma_bind_literals(world, env, children, count, depth);
    let saved = bind(world, env, children, count, depth).saved;
    assert(saved[pair].key == key);
    let first = first_index(saved, key, pair);
    law_let_restores(world, env, args, depth, first);
}

/// The first entry of `saved` that binds `key`, which the entry `upto`
/// binds.
pub proof fn first_index(saved: Seq<Saved>, key: Seq<char>, upto: int) -> (first: int)
    requires
        0 <= upto < saved.len(),
        saved[upto].key == key,
    ensures
        first_bound_at(saved, first),
        saved[first].key == key,
    decreases upto,
{
    if exists|j: int| 0 <= j < upto && #[trigger] saved[j].key == key {
        let j = choose|j: int| 0 <= j < upto && #[trigger] saved[j].key == key;
        first_index(saved, key, j)
    } else {
        upto
    }
}

/// A definition list with a bare literal among its arguments fails, and so
/// gives no text.
pub proof fn law_definition_list_rejects_literals(
    world: World,
    env: Env,
    args: Seq<Tree>,
    depth: nat,
    index: int,
)
    requires
        0 <= index < args.len(),
        args[index] is Leaf,
    ensures
        apply(Behavior::DefinitionList, world, env, args, depth).result is Err,
{
    reveal(apply_def);
    let upto = each(Pass::Definition, world, env, args, (index + 1) as nat, depth);
    let before = each(Pass::Definition, world, env, args, index as nat, depth);
    assert(item(Pass::Definition, world, before.env, args, index as nat, depth).result is Err);
    assert(upto.result is Err);
    lemma_each_failed(Pass::Definition, world, env, args, (index + 1) as nat, args.len(), depth);
}

/// Evaluation is repeatable: the text of a tree depends on the world, the
/// directives and the variables alone. So where a page has left the
/// registry as it was, evaluating its tree again after a reset, which
/// empties the variables, gives the same text as evaluating it with no
/// variables did.
pub proof fn law_reevaluation_is_identical(before: State, tree: Tree)
    requires
        before.env.ctx == Map::<Seq<char>, Tree>::empty(),
        eval(before.world, before.env, tree, before.depth).env.registry == before.env.registry,
    ensures
        ({
            let first = eval(before.world, before.env, tree, before.depth);
            let again = before.advanced(first).cleared();
            eval(again.world, again.env, tree, again.depth).result == first.result
        }),
{
    let first = eval(before.world, before.env, tree, before.depth);
    let again = before.advanced(first).cleared();
    assert(again.env =~= before.env);
}

/// Tokens are unique: two tokens of one evaluator are the same text only
/// where they stand for the same field of the same reference.
pub proof fn law_tokens_are_unique(
    marker: Seq<char>,
    action1: PlaceholderAction,
    id1: Seq<char>,
    action2: PlaceholderAction,
    id2: Seq<char>,
)
    requires
        token(marker, action1, id1) == token(marker, action2, id2),
    ensures
        action1 == action2,
        id1 == id2,
{
    lemma_token_found(marker, action1, id1, Seq::empty());
    lemma_token_found(marker, action2, id2, Seq::empty());
}

/// Linking replaces a token by the field that it stands for, and goes on
/// behind it; where the reference is not defined, linking fails.
pub proof fn law_substitute_replaces_tokens(
    marker: Seq<char>,
    refs: Map<Seq<char>, RefDefModel>,
    action: PlaceholderAction,
    id: Seq<char>,
    rest: Seq<char>,
)
    ensures
        substituted(marker, refs, token(marker, action, id) + rest) == (if refs.contains_key(id) {
            prepend(field_of(refs[id], action), substituted(marker, refs, rest))
        } else {
            Err(EvalError::UndefinedReference)
        }),
{
    let written = token(marker, action, id);
    let body = written + rest;
    lemma_token_found(marker, action, id, rest);
    assert(body.skip(written.len() as int) =~= rest);
}

/// Linking leaves text without tokens as it is.
pub proof fn law_substitute_keeps_plain_text(
    marker: Seq<char>,
    refs: Map<Seq<char>, RefDefModel>,
    body: Seq<char>,
)
    requires
        forall|i: int| 0 <= i < body.len() ==> #[trigger] token_at(marker, body.skip(i)) is None,
    ensures
        substituted(marker, refs, body) == Ok::<Seq<char>, EvalError>(body),
    decreases body.len(),
{
    if body.len() > 0 {
        let rest = body.skip(1);
        assert(body.skip(0) =~= body);
        assert forall|i: int| 0 <= i < rest.len() implies #[trigger] token_at(
            marker,
            rest.skip(i),
        ) is None by {
            assert(rest.skip(i) =~= body.skip(i + 1));
        }
        law_substitute_keeps_plain_text(marker, refs, rest);
        assert(seq![body[0]] + rest =~= body);
    } else {
        assert(body =~= Seq::<char>::empty());
    }
}

/// A variable that was defined with `evaluate` is frozen: it gives the text
/// that its value had when it was defined, whatever has been defined or
/// registered since.
pub proof fn law_eager_definition_is_frozen(
    world: World,
    env: Env,
    args: Seq<Tree>,
    depth: nat,
    later_world: World,
    later: Env,
    later_depth: nat,
)
    requires
        args.len() == 3,
        run_define(world, env, args, depth).result is Ok,
    ensures
        ({
            let word = eval(world, env, args[0], depth);
            let both = eval_two(world, word.env, args[1], args[2], depth);
            let key = both.texts()[0];
            let defined = run_define(world, env, args, depth).env;
            &&& both.result is Ok
            &&& defined.ctx.contains_key(key)
            &&& later.ctx.contains_key(key) && later.ctx[key] == defined.ctx[key] ==> lookup(
                later_world,
                later,
                key,
                later_depth,
            ) == done(later, both.texts()[1])
        }),
{
    reveal(eval_def);
}

/// A variable that was defined without `evaluate` follows: it is bound to
/// the tree as it was written, and gives what that tree evaluates to when
/// the variable is read.
pub proof fn law_lazy_definition_follows(
    world: World,
    env: Env,
    args: Seq<Tree>,
    depth: nat,
    later_world: World,
    later: Env,
    later_depth: nat,
)
    requires
        args.len() == 2,
        run_define(world, env, args, depth).result is Ok,
    ensures
        ({
            let key = eval(world, env, args[0], depth);
            let name = key.result->Ok_0;
            let defined = run_define(world, env, args, depth).env;
            &&& key.result is Ok
            &&& defined.ctx.contains_key(name)
            &&& defined.ctx[name] == args[1]
            &&& later.ctx.contains_key(name) && later.ctx[name] == defined.ctx[name] ==> lookup(
                later_world,
                later,
                name,
                later_depth,
            ) == eval(later_world, later, args[1], later_depth)
        }),
{
}

/// Whether `c` is a digit or a small letter of the Latin alphabet.
pub open spec fn plain(c: char) -> bool {
    ('0' <= c <= '9') || ('a' <= c <= 'z')
}

/// Whether every character of `s` is a digit or a small Latin letter.
pub open spec fn all_plain(s: Seq<char>) -> bool {
    forall|i: int| 0 <= i < s.len() ==> plain(#[trigger] s[i])
}

/// A number in decimal is made of digits.
pub proof fn lemma_decimal_plain(n: nat)
    ensures
        all_plain(decimal(n)),
    decreases n,
{
    if n >= 10 {
        lemma_decimal_plain(n / 10);
    }
}

/// An encoded id is made of digits and small letters.
pub proof fn lemma_encode_plain(id: Seq<char>)
    ensures
        all_plain(encode(id)),
    decreases id.len(),
{
    reveal(hex6);
    if id.len() > 0 {
        lemma_encode_plain(id.drop_first());
        let head = hex6(id[0] as u32 as nat);
        assert(all_plain(head)) by {
            assert forall|i: int| 0 <= i < head.len() implies plain(#[trigger] head[i]) by {
                assert forall|d: nat| plain(#[trigger] hex_digit(d)) by {}
            }
        }
    }
}

/// The tokens of an evaluator are made of digits and small Latin letters
/// alone, whatever the id of the reference holds.
pub proof fn law_tokens_are_plain(prefix: u64, action: PlaceholderAction, id: Seq<char>)
    ensures
        all_plain(token(marker_of(prefix), action, id)),
{
    reveal_strlit("rk");
    lemma_decimal_plain(prefix as nat);
    lemma_encode_plain(id);
    let marker = marker_of(prefix);
    assert(all_plain(marker));
    assert(plain(action_char(action)));
    assert(plain('z'));
}

} // verus!
