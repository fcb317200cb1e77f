//! Handler expansion: the command template split into a program and its
//! arguments, with `${name}` placeholders replaced by bound values.
use vstd::prelude::*;
use crate::matcher::{bindings_view, Binding};
use crate::route::Route;
use crate::text::{has_char, lemma_split_on_nonempty, split_on, split_pieces, strings_view, text_eq};

verus! {

/// The value bound to `name`: that of its last binding, or the empty text when
/// it has none.
pub open spec fn binding_value(bs: Seq<Binding>, name: Seq<char>) -> Seq<char>
    decreases bs.len(),
{
    if bs.len() == 0 {
        Seq::empty()
    } else if bs.last().0 == name {
        bs.last().1
    } else {
        binding_value(bs.drop_last(), name)
    }
}

/// What `shellexpand::env_with_context_no_errors` makes of a template when each
/// variable it meets is looked up with [`binding_value`].
pub uninterp spec fn expansion_of(arg: Seq<char>, bs: Seq<Binding>) -> Seq<char>;

/// The value bound to `name`: that of its last binding, or the empty text.
pub fn lookup_binding(bs: &Vec<(&String, String)>, name: &str) -> (r: String)
    ensures
        r@ == binding_value(bindings_view(bs@), name@),
{
    let ghost all = bindings_view(bs@);
    let mut i: usize = bs.len();
    assert(all.subrange(0, i as int) =~= all);
    while i > 0
        invariant
            all == bindings_view(bs@),
            i <= bs@.len(),
            binding_value(all, name@) == binding_value(all.subrange(0, i as int), name@),
        decreases i,
    {
        let ghost pre = all.subrange(0, i as int);
        assert(pre.drop_last() =~= all.subrange(0, i - 1));
        i = i - 1;
        if text_eq(bs[i].0.as_str(), name) {
            return bs[i].1.clone();
        }
    }
    assert(all.subrange(0, 0) =~= Seq::<Binding>::empty());
    String::new()
}

/// Relies on `shellexpand::env_with_context_no_errors`: it replaces `$name` and
/// `${name}` by what the lookup gives, and hands back a text without `$` as it is.
/// Every lookup here gives a value, so no placeholder stays unexpanded.
#[verifier::external_body]
fn expand_arg(arg: &str, bs: &Vec<(&String, String)>) -> (r: String)
    ensures
        r@ == expansion_of(arg@, bindings_view(bs@)),
        !has_char(arg@, '$') ==> r@ == arg@,
{
    shellexpand::env_with_context_no_errors(arg, |var: &str| Some(lookup_binding(bs, var))).into_owned()
}

/// A program to run and its arguments.
#[derive(Debug, Clone, PartialEq, Eq)]
pub struct CommandLine {
    pub program: String,
    pub args: Vec<String>,
}

/// The handler template split on single spaces: the first token is the
/// program, each other token an argument template, expanded.
pub open spec fn command_of(handler: Seq<char>, bs: Seq<Binding>) -> (Seq<char>, Seq<Seq<char>>) {
    let toks = split_on(handler, ' ');
    (toks[0], toks.drop_first().map_values(|t: Seq<char>| expansion_of(t, bs)))
}

impl Route {
    /// The command line for this route's handler under the given bindings.
    pub fn get_command(&self, params: Vec<(&String, String)>) -> (r: CommandLine)
        ensures
            (r.program@, strings_view(r.args@)) == command_of(self.handler@, bindings_view(params@)),
            !has_char(self.handler@, '$') ==> strings_view(r.args@) == split_on(
                self.handler@,
                ' ',
            ).drop_first(),
    {
        let toks = split_pieces(self.handler.as_str(), ' ');
        let ghost tv = strings_view(toks@);
        let ghost bv = bindings_view(params@);
        proof {
            lemma_split_on_nonempty(self.handler@, ' ');
            if !has_char(self.handler@, '$') {
                crate::text::lemma_split_on_lacks(self.handler@, ' ', '$');
            }
        }
        let program = toks[0].clone();
        let mut args: Vec<String> = Vec::new();
        let mut i: usize = 1;
        while i < toks.len()
            invariant
                tv == strings_view(toks@),
                tv.len() >= 1,
                bv == bindings_view(params@),
                1 <= i <= toks@.len(),
                strings_view(args@) == tv.subrange(1, i as int).map_values(
                    |t: Seq<char>| expansion_of(t, bv),
                ),
                tv == split_on(self.handler@, ' '),
                !has_char(self.handler@, '$') ==> strings_view(args@) == tv.subrange(1, i as int),
                !has_char(self.handler@, '$') ==> forall|k: int|
                    0 <= k < tv.len() ==> !has_char(#[trigger] tv[k], '$'),
            decreases toks@.len() - i,
        {
            let a = expand_arg(toks[i].as_str(), &params);
            let ghost before = args@;
            args.push(a);
            assert(strings_view(args@) =~= strings_view(before).push(a@));
            assert(tv.subrange(1, i + 1).map_values(|t: Seq<char>| expansion_of(t, bv))
                =~= tv.subrange(1, i as int).map_values(|t: Seq<char>| expansion_of(t, bv)).push(a@));
            proof {
                if !has_char(self.handler@, '$') {
                    assert(!has_char(tv[i as int], '$'));
                    assert(tv.subrange(1, i + 1) =~= tv.subrange(1, i as int).push(tv[i as int]));
                }
            }
            i = i + 1;
        }
        assert(tv.subrange(1, tv.len() as int) =~= tv.drop_first());
        CommandLine { program, args }
    }
}

} // verus!
