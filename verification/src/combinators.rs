//! Parsers that are put together from smaller ones.
use std::marker::PhantomData;
use vstd::prelude::*;

use crate::text::strip_prefix;

verus! {

/// A parser: it takes a value off the start of a text and hands back the rest,
/// or it fails.
pub trait ParserT<Output> {
    /// Whether the parser can come to an end on `input`.
    spec fn defined(&self, input: Seq<char>) -> bool;

    /// Whether `r` can come of parsing `input`: a value and the text that is
    /// left, or failure.
    spec fn parses(&self, input: Seq<char>, r: Option<(Output, Seq<char>)>) -> bool;

    /// Parses `input`.
    fn parse(&self, input: String) -> (r: Option<(Output, String)>)
        requires
            self.defined(input@),
        ensures
            self.parses(input@, outcome(r)),
    ;
}

/// What came of a parse, with the text that is left as a sequence.
pub open spec fn outcome<Output>(r: Option<(Output, String)>) -> Option<(Output, Seq<char>)> {
    match r {
        Some((value, rest)) => Some((value, rest@)),
        None => None,
    }
}

/// Takes a fixed text. Its value is the whole input.
pub struct StringParser {
    pub string: String,
}

/// Takes what the first parser takes, or else what the second does.
pub struct OrParser<P1, P2> {
    pub parser1: P1,
    pub parser2: P2,
}

/// Always fails.
pub struct NeverParser {}

/// Takes what a parser takes, with a function applied to its value.
pub struct MapParser<P1, F, OldOutput> {
    pub parser: P1,
    pub function: F,
    pub old_output: PhantomData<OldOutput>,
}

/// Applies a parser to the whole input again and again until it fails.
pub struct ManyParser<P> {
    pub parser: P,
}

/// Takes what two parsers take, one after the other, and keeps the value of the
/// second.
pub struct DiscardAndThenKeepParser<P1, P2, DiscardedOutput> {
    pub parser1: P1,
    pub parser2: P2,
    pub discarded_output: PhantomData<DiscardedOutput>,
}

/// Takes what two parsers take, one after the other, and keeps the value of the
/// first.
pub struct KeepAndThenDiscardParser<P1, P2, DiscardedOutput> {
    pub parser1: P1,
    pub parser2: P2,
    pub discarded_output: PhantomData<DiscardedOutput>,
}

/// Ways to make a larger parser of one.
pub trait Combine<Output>: ParserT<Output> + Sized {
    /// This parser, or `parser` where this one fails.
    fn or<P>(&self, parser: P) -> (r: OrParser<Box<&Self>, P>) where P: ParserT<Output>
        ensures
            r.parser1 == self,
            r.parser2 == parser,
    ;

    /// This parser, with `f` applied to its value.
    fn map<F, NewOutput>(&self, f: F) -> (r: MapParser<&Self, F, Output>) where
        F: Fn(Output) -> NewOutput,

        ensures
            r.parser == self,
            r.function == f,
    ;

    /// This parser and then `parser`, with the value of this one.
    fn keep_and_then_discard<DiscardedOutput, P>(&self, parser: P) -> (r: KeepAndThenDiscardParser<
        &Self,
        P,
        DiscardedOutput,
    >) where P: ParserT<DiscardedOutput>
        ensures
            r.parser1 == self,
            r.parser2 == parser,
    ;

    /// This parser and then `parser`, with the value of `parser`.
    fn discard_and_then_keep<NewOutput, P>(&self, parser: P) -> (r: DiscardAndThenKeepParser<
        &Self,
        P,
        Output,
    >) where P: ParserT<NewOutput>
        ensures
            r.parser1 == self,
            r.parser2 == parser,
    ;
}

impl<Output, Q> Combine<Output> for Q where Q: ParserT<Output> {
    fn or<P>(&self, parser: P) -> (r: OrParser<Box<&Self>, P>) where P: ParserT<Output> {
        OrParser { parser1: Box::new(self), parser2: parser }
    }

    fn map<F, NewOutput>(&self, f: F) -> (r: MapParser<&Self, F, Output>) where
        F: Fn(Output) -> NewOutput,
     {
        MapParser { parser: self, function: f, old_output: PhantomData }
    }

    fn keep_and_then_discard<DiscardedOutput, P>(&self, parser: P) -> (r: KeepAndThenDiscardParser<
        &Self,
        P,
        DiscardedOutput,
    >) where P: ParserT<DiscardedOutput> {
        KeepAndThenDiscardParser { parser1: self, parser2: parser, discarded_output: PhantomData }
    }

    fn discard_and_then_keep<NewOutput, P>(&self, parser: P) -> (r: DiscardAndThenKeepParser<
        &Self,
        P,
        Output,
    >) where P: ParserT<NewOutput> {
        DiscardAndThenKeepParser { parser1: self, parser2: parser, discarded_output: PhantomData }
    }
}

impl<Output, P> ParserT<Output> for &P where P: ParserT<Output> {
    open spec fn defined(&self, input: Seq<char>) -> bool {
        (**self).defined(input)
    }

    open spec fn parses(&self, input: Seq<char>, r: Option<(Output, Seq<char>)>) -> bool {
        (**self).parses(input, r)
    }

    fn parse(&self, input: String) -> (r: Option<(Output, String)>) {
        (**self).parse(input)
    }
}

impl<Output, P> ParserT<Output> for Box<P> where P: ParserT<Output> {
    open spec fn defined(&self, input: Seq<char>) -> bool {
        (**self).defined(input)
    }

    open spec fn parses(&self, input: Seq<char>, r: Option<(Output, Seq<char>)>) -> bool {
        (**self).parses(input, r)
    }

    fn parse(&self, input: String) -> (r: Option<(Output, String)>) {
        (**self).parse(input)
    }
}

impl<DiscardedOutput, Output, P1, P2> ParserT<Output> for KeepAndThenDiscardParser<
    P1,
    P2,
    DiscardedOutput,
> where P1: ParserT<Output>, P2: ParserT<DiscardedOutput> {
    open spec fn defined(&self, input: Seq<char>) -> bool {
        &&& self.parser1.defined(input)
        &&& forall|value: Output, rest: Seq<char>| #[trigger]
            self.parser1.parses(input, Some((value, rest))) ==> self.parser2.defined(rest)
    }

    open spec fn parses(&self, input: Seq<char>, r: Option<(Output, Seq<char>)>) -> bool {
        ||| r is None && self.parser1.parses(input, None)
        ||| exists|value: Output, middle: Seq<char>|
            #![trigger self.parser1.parses(input, Some((value, middle)))]
            {
                &&& r is None
                &&& self.parser1.parses(input, Some((value, middle)))
                &&& self.parser2.parses(middle, None)
            }
        ||| exists|value: Output, middle: Seq<char>, discarded: DiscardedOutput, rest: Seq<char>|
            #![trigger
                self.parser1.parses(input, Some((value, middle))),
                self.parser2.parses(middle, Some((discarded, rest)))
            ]
            {
                &&& self.parser1.parses(input, Some((value, middle)))
                &&& self.parser2.parses(middle, Some((discarded, rest)))
                &&& r == Some((value, rest))
            }
    }

    fn parse(&self, input: String) -> (r: Option<(Output, String)>) {
        let (result, middle) = self.parser1.parse(input)?;
        assert(self.parser1.parses(input@, Some((result, middle@))));
        let (_discarded, remaining) = self.parser2.parse(middle)?;
        assert(self.parser2.parses(middle@, Some((_discarded, remaining@))));
        Some((result, remaining))
    }
}

impl<DiscardedOutput, Output, P1, P2> ParserT<Output> for DiscardAndThenKeepParser<
    P1,
    P2,
    DiscardedOutput,
> where P1: ParserT<DiscardedOutput>, P2: ParserT<Output> {
    open spec fn defined(&self, input: Seq<char>) -> bool {
        &&& self.parser1.defined(input)
        &&& forall|discarded: DiscardedOutput, rest: Seq<char>| #[trigger]
            self.parser1.parses(input, Some((discarded, rest))) ==> self.parser2.defined(rest)
    }

    open spec fn parses(&self, input: Seq<char>, r: Option<(Output, Seq<char>)>) -> bool {
        ||| r is None && self.parser1.parses(input, None)
        ||| exists|discarded: DiscardedOutput, middle: Seq<char>|
            #![trigger self.parser1.parses(input, Some((discarded, middle)))]
            self.parser1.parses(input, Some((discarded, middle))) && self.parser2.parses(middle, r)
    }

    fn parse(&self, input: String) -> (r: Option<(Output, String)>) {
        let (_discarded, remaining) = self.parser1.parse(input)?;
        self.parser2.parse(remaining)
    }
}

/// Whether `value` can come of applying `parser` to `input`.
pub open spec fn can_take<Output, P: ParserT<Output>>(
    parser: P,
    input: Seq<char>,
    value: Output,
) -> bool {
    exists|left: Seq<char>| #[trigger] parser.parses(input, Some((value, left)))
}

/// Whether `values` can come of applying `parser` to `input` once for each of
/// them, with `rest` as the text that the last time left.
pub open spec fn repeated<Output, P: ParserT<Output>>(
    parser: P,
    input: Seq<char>,
    values: Seq<Output>,
    rest: Seq<char>,
) -> bool {
    &&& forall|i: int|
        0 <= i < values.len() ==> can_take(parser, input, #[trigger] values[i])
    &&& if values.len() == 0 {
        rest == input
    } else {
        parser.parses(input, Some((values.last(), rest)))
    }
}

impl<Output, P> ParserT<Vec<Output>> for ManyParser<P> where P: ParserT<Output> {
    /// Where the parser cannot fail on the input, applying it to the same input
    /// over and over has no end.
    open spec fn defined(&self, input: Seq<char>) -> bool {
        self.parser.defined(input) && self.parser.parses(input, None)
    }

    /// Every value came of the whole input, and so did the last failure. The
    /// text that is left is that behind the last value, or all of the input.
    open spec fn parses(&self, input: Seq<char>, r: Option<(Vec<Output>, Seq<char>)>) -> bool {
        r matches Some((values, rest)) && self.parser.parses(input, None) && repeated(
            self.parser,
            input,
            values@,
            rest,
        )
    }

    fn parse(&self, input: String) -> (r: Option<(Vec<Output>, String)>) {
        let mut remaining_input: String = input.clone();
        let mut result: Vec<Output> = Vec::new();
        loop
            invariant
                self.parser.defined(input@),
                repeated(self.parser, input@, result@, remaining_input@),
            ensures
                self.parser.parses(input@, None),
            decreases usize::MAX - result@.len(),
        {
            match self.parser.parse(input.clone()) {
                Some((value, rest)) => {
                    assert(self.parser.parses(input@, Some((value, rest@))));
                    assert(can_take(self.parser, input@, value));
                    result.push(value);
                    // No vector holds more values than this.
                    assert(result.len() <= usize::MAX);
                    remaining_input = rest;
                },
                None => break,
            }
        }
        Some((result, remaining_input))
    }
}

impl<Output, P1, NewOutput, F> ParserT<NewOutput> for MapParser<P1, F, Output> where
    P1: ParserT<Output>,
    F: Fn(Output) -> NewOutput,
 {
    open spec fn defined(&self, input: Seq<char>) -> bool {
        &&& self.parser.defined(input)
        &&& forall|value: Output, rest: Seq<char>| #[trigger]
            self.parser.parses(input, Some((value, rest))) ==> self.function.requires((value,))
    }

    open spec fn parses(&self, input: Seq<char>, r: Option<(NewOutput, Seq<char>)>) -> bool {
        ||| r is None && self.parser.parses(input, None)
        ||| exists|old_value: Output, value: NewOutput, rest: Seq<char>|
            #![trigger
                self.parser.parses(input, Some((old_value, rest))),
                self.function.ensures((old_value,), value)
            ]
            {
                &&& self.parser.parses(input, Some((old_value, rest)))
                &&& self.function.ensures((old_value,), value)
                &&& r == Some((value, rest))
            }
    }

    fn parse(&self, input: String) -> (r: Option<(NewOutput, String)>) {
        match self.parser.parse(input) {
            Some((value, rest)) => {
                assert(self.parser.parses(input@, Some((value, rest@))));
                Some(((self.function)(value), rest))
            },
            None => None,
        }
    }
}

impl ParserT<String> for StringParser {
    open spec fn defined(&self, input: Seq<char>) -> bool {
        true
    }

    open spec fn parses(&self, input: Seq<char>, r: Option<(String, Seq<char>)>) -> bool {
        match r {
            Some((value, rest)) => input == self.string@ + rest && value@ == input,
            None => !self.string@.is_prefix_of(input),
        }
    }

    fn parse(&self, input: String) -> (r: Option<(String, String)>) {
        match strip_prefix(input.as_str(), self.string.as_str()) {
            Some(suffix) => Some((input.clone(), suffix.to_owned())),
            None => None,
        }
    }
}

impl<Output, P1, P2> ParserT<Output> for OrParser<P1, P2> where
    P1: ParserT<Output>,
    P2: ParserT<Output>,
 {
    /// Both parsers are applied, whatever comes of the first.
    open spec fn defined(&self, input: Seq<char>) -> bool {
        self.parser1.defined(input) && self.parser2.defined(input)
    }

    open spec fn parses(&self, input: Seq<char>, r: Option<(Output, Seq<char>)>) -> bool {
        ||| r is Some && self.parser1.parses(input, r)
        ||| self.parser1.parses(input, None) && self.parser2.parses(input, r)
    }

    fn parse(&self, input: String) -> (r: Option<(Output, String)>) {
        let first = self.parser1.parse(input.clone());
        let second = self.parser2.parse(input);
        match first {
            Some(found) => Some(found),
            None => second,
        }
    }
}

impl<Output> ParserT<Output> for NeverParser {
    open spec fn defined(&self, input: Seq<char>) -> bool {
        true
    }

    open spec fn parses(&self, input: Seq<char>, r: Option<(Output, Seq<char>)>) -> bool {
        r is None
    }

    fn parse(&self, input: String) -> (r: Option<(Output, String)>) {
        None
    }
}

/// A parser that always fails adds nothing to a choice, on either side.
pub proof fn law_never_is_neutral<Output, P: ParserT<Output>>(
    p: P,
    input: Seq<char>,
    r: Option<(Output, Seq<char>)>,
)
    ensures
        (OrParser { parser1: NeverParser {  }, parser2: p }).parses(input, r) <==> p.parses(
            input,
            r,
        ),
        (OrParser { parser1: p, parser2: NeverParser {  } }).parses(input, r) <==> p.parses(
            input,
            r,
        ),
{
}

/// A choice among three parsers does not depend on how they are grouped.
pub proof fn law_or_is_associative<
    Output,
    P1: ParserT<Output>,
    P2: ParserT<Output>,
    P3: ParserT<Output>,
>(p1: P1, p2: P2, p3: P3, input: Seq<char>, r: Option<(Output, Seq<char>)>)
    ensures
        (OrParser { parser1: OrParser { parser1: p1, parser2: p2 }, parser2: p3 }).parses(input, r)
            <==> (OrParser { parser1: p1, parser2: OrParser { parser1: p2, parser2: p3 } }).parses(
            input,
            r,
        ),
{
}

/// A choice takes what its first parser takes, where that one does not fail.
pub proof fn law_or_prefers_the_first<Output, P1: ParserT<Output>, P2: ParserT<Output>>(
    p1: P1,
    p2: P2,
    input: Seq<char>,
    r: Option<(Output, Seq<char>)>,
)
    requires
        !p1.parses(input, None),
        (OrParser { parser1: p1, parser2: p2 }).parses(input, r),
    ensures
        p1.parses(input, r),
{
}

/// A function on the value of a parser changes neither when it fails nor what
/// is left of the input.
pub proof fn law_map_keeps_the_rest<
    Output,
    NewOutput,
    P: ParserT<Output>,
    F: Fn(Output) -> NewOutput,
>(
    parser: P,
    function: F,
    input: Seq<char>,
    value: NewOutput,
    rest: Seq<char>,
)
    ensures
        (MapParser { parser, function, old_output: PhantomData::<Output> }).parses(input, None)
            <==> parser.parses(input, None),
        (MapParser { parser, function, old_output: PhantomData::<Output> }).parses(
            input,
            Some((value, rest)),
        ) ==> exists|old_value: Output|
            {
                &&& #[trigger] parser.parses(input, Some((old_value, rest)))
                &&& function.ensures((old_value,), value)
            },
{
    let m = MapParser { parser, function, old_output: PhantomData::<Output> };
    if m.parses(input, Some((value, rest))) {
        let (old_value, v, left) = choose|old_value: Output, v: NewOutput, left: Seq<char>|
            #![trigger
                parser.parses(input, Some((old_value, left))),
                function.ensures((old_value,), v)
            ]
            {
                &&& parser.parses(input, Some((old_value, left)))
                &&& function.ensures((old_value,), v)
                &&& Some((value, rest)) == Some((v, left))
            };
        assert(parser.parses(input, Some((old_value, rest))));
    }
}

/// A parser that can only fail on an input gives no values, and leaves all of
/// the input.
pub proof fn law_many_of_nothing<Output, P: ParserT<Output>>(
    parser: P,
    input: Seq<char>,
    values: Vec<Output>,
    rest: Seq<char>,
)
    requires
        forall|r: Option<(Output, Seq<char>)>| #[trigger] parser.parses(input, r) ==> r is None,
        (ManyParser { parser }).parses(input, Some((values, rest))),
    ensures
        values@.len() == 0,
        rest == input,
{
    if values@.len() > 0 {
        assert(parser.parses(input, Some((values@.last(), rest))));
    }
}

/// Two fixed texts, one after the other: together they take the one text that
/// both make up, whichever of the two values is kept.
pub proof fn law_texts_in_sequence(
    first: StringParser,
    second: StringParser,
    input: Seq<char>,
    value: String,
    rest: Seq<char>,
)
    ensures
        (DiscardAndThenKeepParser {
            parser1: first,
            parser2: second,
            discarded_output: PhantomData::<String>,
        }).parses(input, Some((value, rest))) ==> input == first.string@ + second.string@ + rest
            && value@ == second.string@ + rest,
        (KeepAndThenDiscardParser {
            parser1: first,
            parser2: second,
            discarded_output: PhantomData::<String>,
        }).parses(input, Some((value, rest))) ==> input == first.string@ + second.string@ + rest
            && value@ == input,
{
    assert(first.string@ + (second.string@ + rest) =~= first.string@ + second.string@ + rest);
}

/// Whether `r` is the one thing that can come of parsing `input` with `parser`.
pub open spec fn gives<Output, P: ParserT<Output>>(
    parser: P,
    input: Seq<char>,
    r: Option<(Output, Seq<char>)>,
) -> bool {
    forall|x: Option<(Output, Seq<char>)>| #[trigger] parser.parses(input, x) <==> x == r
}

/// What a parser hands back is what came of parsing the input: the value, and all
/// of the text that is left, or failure.
pub proof fn law_parse<Output, P: ParserT<Output>>(
    parser: &P,
    input: String,
    r: Option<(Output, String)>,
)
    requires
        parser.defined(input@),
        call_ensures(<P as ParserT<Output>>::parse, (parser, input), r),
    ensures
        call_requires(<P as ParserT<Output>>::parse, (parser, input)),
        match r {
            Some((value, rest)) => parser.parses(input@, Some((value, rest@))),
            None => parser.parses(input@, None),
        },
{
}

/// A fixed text is taken off every input that starts with it, whatever is behind
/// it, and that is what is left, all of it; the value is the whole input. On any
/// other input the parser fails, and it comes to an end on every input.
pub proof fn law_fixed_text(
    parser: &StringParser,
    rest: Seq<char>,
    input: Seq<char>,
    r: Option<(String, Seq<char>)>,
)
    ensures
        !parser.parses(parser.string@ + rest, None),
        parser.parses(parser.string@ + rest, r) <==> (r matches Some((value, left)) && value@
            == parser.string@ + rest && left == rest),
        parser.parses(input, None) <==> !(input.len() >= parser.string@.len() && input.take(
            parser.string@.len() as int,
        ) == parser.string@),
        parser.defined(input),
{
    let text = parser.string@;
    let whole = text + rest;
    assert(whole.subrange(0, text.len() as int) =~= text);
    assert(whole.skip(text.len() as int) =~= rest);
    if let Some((value, left)) = r {
        if whole == text + left {
            assert((text + left).skip(text.len() as int) =~= left);
        }
    }
    if input.len() >= text.len() {
        assert(input.take(text.len() as int) =~= input.subrange(0, text.len() as int));
    }
}

/// What parsing a fixed text hands back: what is behind it, and the whole input as
/// the value, where the input starts with it, and nothing where it does not.
pub proof fn law_fixed_text_is_parsed(
    parser: &StringParser,
    rest: Seq<char>,
    input: String,
    r: Option<(String, String)>,
)
    requires
        call_ensures(<StringParser as ParserT<String>>::parse, (parser, input), r),
    ensures
        call_requires(<StringParser as ParserT<String>>::parse, (parser, input)),
        input@ == parser.string@ + rest ==> (r matches Some((value, left)) && value@ == input@
            && left@ == rest),
        r matches Some((value, left)) ==> input@ == parser.string@ + left@,
{
    law_fixed_text(parser, rest, input@, outcome(r));
    if let Some((value, left)) = r {
        law_fixed_text(parser, left@, input@, outcome(r));
    }
}

/// A parser that always fails does so on every input.
pub proof fn law_never<Output>(input: Seq<char>)
    ensures
        gives::<Output, NeverParser>(NeverParser {  }, input, None),
        <NeverParser as ParserT<Output>>::defined(&(NeverParser {  }), input),
{
}

/// A parser that stands behind a reference or in a box is that parser.
pub proof fn law_behind_a_reference<Output, P: ParserT<Output>>(
    parser: P,
    input: Seq<char>,
    r: Option<(Output, Seq<char>)>,
)
    ensures
        (&parser).parses(input, r) <==> parser.parses(input, r),
        (&parser).defined(input) <==> parser.defined(input),
        Box::new(parser).parses(input, r) <==> parser.parses(input, r),
        Box::new(parser).defined(input) <==> parser.defined(input),
{
}

/// A choice gives what its first parser gives, unless that is failure, and then
/// what its second gives on the same input. It comes to an end where both do.
pub proof fn law_choice<Output, P1: ParserT<Output>, P2: ParserT<Output>>(
    p1: P1,
    p2: P2,
    input: Seq<char>,
    r1: Option<(Output, Seq<char>)>,
    r2: Option<(Output, Seq<char>)>,
)
    ensures
        gives(p1, input, r1) && gives(p2, input, r2) ==> gives(
            OrParser { parser1: p1, parser2: p2 },
            input,
            if r1 is Some {
                r1
            } else {
                r2
            },
        ),
        p1.defined(input) && p2.defined(input) ==> (OrParser {
            parser1: p1,
            parser2: p2,
        }).defined(input),
{
    let or = OrParser { parser1: p1, parser2: p2 };
    if gives(p1, input, r1) && gives(p2, input, r2) {
        let r = if r1 is Some {
            r1
        } else {
            r2
        };
        assert forall|x: Option<(Output, Seq<char>)>| #[trigger] or.parses(input, x) <==> x
            == r by {
            assert(p1.parses(input, x) <==> x == r1);
            assert(p2.parses(input, x) <==> x == r2);
            assert(p1.parses(input, None) <==> r1 is None);
        }
    }
}

/// A function applied to the value of a parser: the new value is what the function
/// makes of it, what is left of the input stays, and failure stays failure.
pub proof fn law_map<Output, NewOutput, P: ParserT<Output>, F: Fn(Output) -> NewOutput>(
    parser: P,
    function: F,
    input: Seq<char>,
    r: Option<(Output, Seq<char>)>,
    x: Option<(NewOutput, Seq<char>)>,
)
    ensures
        gives(parser, input, r) ==> ((MapParser {
            parser,
            function,
            old_output: PhantomData::<Output>,
        }).parses(input, x) <==> match (r, x) {
            (Some((old_value, rest)), Some((value, left))) => function.ensures(
                (old_value,),
                value,
            ) && left == rest,
            (None, None) => true,
            _ => false,
        }),
        parser.defined(input) && (forall|value: Output| #[trigger] function.requires((value,)))
            ==> (MapParser { parser, function, old_output: PhantomData::<Output> }).defined(input),
{
    if gives(parser, input, r) {
        assert(parser.parses(input, None) <==> r is None);
        if let Some((old_value, rest)) = r {
            assert(parser.parses(input, Some((old_value, rest))));
        }
        let map = MapParser { parser, function, old_output: PhantomData::<Output> };
        if map.parses(input, x) && x is Some {
            let (old_value, value, rest) = choose|old_value: Output, value: NewOutput, rest: Seq<char>|
                #![trigger
                    parser.parses(input, Some((old_value, rest))),
                    function.ensures((old_value,), value)
                ]
                {
                    &&& parser.parses(input, Some((old_value, rest)))
                    &&& function.ensures((old_value,), value)
                    &&& x == Some((value, rest))
                };
            assert(r == Some((old_value, rest)));
        }
        if let (Some((old_value, rest)), Some((value, left))) = (r, x) {
            if function.ensures((old_value,), value) && left == rest {
                assert(map.parser.parses(input, Some((old_value, rest))));
                assert(map.function.ensures((old_value,), value));
                assert(map.parses(input, x));
            }
        }
    }
}

/// Two parsers one after the other: the second is given what the first leaves, and
/// what it leaves is left. Where either fails so do both together; else the value
/// is that of the one whose value is kept.
pub proof fn law_sequence<First, Second, P1: ParserT<First>, P2: ParserT<Second>>(
    p1: P1,
    p2: P2,
    input: Seq<char>,
    r1: Option<(First, Seq<char>)>,
    r2: Option<(Second, Seq<char>)>,
)
    requires
        gives(p1, input, r1),
        r1 matches Some((value, middle)) ==> gives(p2, middle, r2),
    ensures
        gives::<First, KeepAndThenDiscardParser<P1, P2, Second>>(
            KeepAndThenDiscardParser {
                parser1: p1,
                parser2: p2,
                discarded_output: PhantomData::<Second>,
            },
            input,
            match (r1, r2) {
                (Some((first, middle)), Some((second, rest))) => Some((first, rest)),
                _ => None,
            },
        ),
        gives::<Second, DiscardAndThenKeepParser<P1, P2, First>>(
            DiscardAndThenKeepParser {
                parser1: p1,
                parser2: p2,
                discarded_output: PhantomData::<First>,
            },
            input,
            if r1 is Some {
                r2
            } else {
                None
            },
        ),
{
    let keep = KeepAndThenDiscardParser {
        parser1: p1,
        parser2: p2,
        discarded_output: PhantomData::<Second>,
    };
    let drop = DiscardAndThenKeepParser {
        parser1: p1,
        parser2: p2,
        discarded_output: PhantomData::<First>,
    };
    let kept: Option<(First, Seq<char>)> = match (r1, r2) {
        (Some((first, middle)), Some((second, rest))) => Some((first, rest)),
        _ => None,
    };
    let last: Option<(Second, Seq<char>)> = if r1 is Some {
        r2
    } else {
        None
    };
    assert(p1.parses(input, None) <==> r1 is None);
    if let Some((first, middle)) = r1 {
        assert(p1.parses(input, Some((first, middle))));
        assert(p2.parses(middle, None) <==> r2 is None);
        if let Some((second, rest)) = r2 {
            assert(p2.parses(middle, Some((second, rest))));
            assert(keep.parser1.parses(input, Some((first, middle))));
            assert(keep.parser2.parses(middle, Some((second, rest))));
            assert(keep.parses(input, Some((first, rest))));
        } else {
            assert(keep.parses(input, None));
        }
    }
    assert forall|x: Option<(First, Seq<char>)>| #[trigger] keep.parses(input, x) <==> x
        == kept by {}
    assert forall|x: Option<(Second, Seq<char>)>| #[trigger] drop.parses(input, x) <==> x
        == last by {
        if let Some((first, middle)) = r1 {
            assert(p2.parses(middle, x) <==> x == r2);
        }
    }
}

/// Two parsers one after the other come to an end where the first does on the
/// input and the second does on whatever the first can leave.
pub proof fn law_sequence_ends<First, Second, P1: ParserT<First>, P2: ParserT<Second>>(
    p1: P1,
    p2: P2,
    input: Seq<char>,
)
    requires
        p1.defined(input),
        forall|value: First, rest: Seq<char>| #[trigger]
            p1.parses(input, Some((value, rest))) ==> p2.defined(rest),
    ensures
        (KeepAndThenDiscardParser {
            parser1: p1,
            parser2: p2,
            discarded_output: PhantomData::<Second>,
        }).defined(input),
        (DiscardAndThenKeepParser {
            parser1: p1,
            parser2: p2,
            discarded_output: PhantomData::<First>,
        }).defined(input),
{
}

/// Repeating never fails. Each value is one that the parser takes off the whole
/// input, the text that is left is what the parser leaves with the last of them, or
/// the whole input where there is none, and any one value can come alone. It comes
/// to an end wherever the parser can fail on the input.
pub proof fn law_many<Output, P: ParserT<Output>>(
    parser: P,
    input: Seq<char>,
    values: Vec<Output>,
    rest: Seq<char>,
    i: int,
)
    ensures
        !(ManyParser { parser }).parses(input, None),
        (ManyParser { parser }).parses(input, Some((values, rest))) ==> {
            &&& parser.parses(input, None)
            &&& 0 <= i < values@.len() ==> exists|left: Seq<char>| #[trigger]
                parser.parses(input, Some((values@[i], left)))
            &&& values@.len() > 0 ==> parser.parses(input, Some((values@.last(), rest)))
            &&& values@.len() == 0 ==> rest == input
        },
        values@.len() == 1 && parser.parses(input, None) && parser.parses(
            input,
            Some((values@[0], rest)),
        ) ==> (ManyParser { parser }).parses(input, Some((values, rest))),
        parser.defined(input) && parser.parses(input, None) ==> (ManyParser { parser }).defined(
            input,
        ),
{
    if (ManyParser { parser }).parses(input, Some((values, rest))) && 0 <= i < values@.len() {
        assert(can_take(parser, input, values@[i]));
    }
    if values@.len() == 1 && parser.parses(input, Some((values@[0], rest))) {
        assert(can_take(parser, input, values@[0]));
    }
}

/// The ways to make a larger parser of one put that one in its place, and the other
/// parser, or the function, in the other.
pub proof fn law_combine<Output, Other, P: ParserT<Output>, Q: ParserT<Output>, R: ParserT<Other>>(
    parser: &P,
    alternative: Q,
    next: R,
    or: OrParser<Box<&P>, Q>,
    keep: KeepAndThenDiscardParser<&P, R, Other>,
    discard: DiscardAndThenKeepParser<&P, R, Output>,
)
    requires
        call_ensures(<P as Combine<Output>>::or::<Q>, (parser, alternative), or),
        call_ensures(
            <P as Combine<Output>>::keep_and_then_discard::<Other, R>,
            (parser, next),
            keep,
        ),
        call_ensures(
            <P as Combine<Output>>::discard_and_then_keep::<Other, R>,
            (parser, next),
            discard,
        ),
    ensures
        or.parser1 == parser,
        or.parser2 == alternative,
        keep.parser1 == parser,
        keep.parser2 == next,
        discard.parser1 == parser,
        discard.parser2 == next,
{
}

/// A parser that is made of one and a function holds both.
pub proof fn law_combine_with_function<
    Output,
    NewOutput,
    P: ParserT<Output>,
    F: Fn(Output) -> NewOutput,
>(parser: &P, function: F, map: MapParser<&P, F, Output>)
    requires
        call_ensures(<P as Combine<Output>>::map::<F, NewOutput>, (parser, function), map),
    ensures
        map.parser == parser,
        map.function == function,
{
}

} // verus!
