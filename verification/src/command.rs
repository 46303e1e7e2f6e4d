//! Pipelines: the stages of a line and the words of each stage.

use vstd::prelude::*;
use crate::tokenizer::{Token, TokenView};

verus! {

/// One stage of a pipeline. The first word names the program or builtin,
/// the others are its arguments.
#[derive(Debug, Clone, PartialEq, Eq)]
pub struct Command {
    pub words: Vec<String>,
}

impl View for Command {
    type V = Seq<Seq<char>>;

    open spec fn view(&self) -> Seq<Seq<char>> {
        self.words.deep_view()
    }
}

impl DeepView for Command {
    type V = Seq<Seq<char>>;

    open spec fn deep_view(&self) -> Seq<Seq<char>> {
        self@
    }
}

/// The tokens do not form a pipeline.
#[derive(Debug, Clone, Copy, PartialEq, Eq, Structural)]
pub struct SyntaxError {}

/// Every stage has a word to name its program.
pub open spec fn stages_named(pipeline: Seq<Seq<Seq<char>>>) -> bool {
    forall|i: int| 0 <= i < pipeline.len() ==> (#[trigger] pipeline[i]).len() >= 1
}

/// Tokens form a pipeline when there is at least one, every one is a word or
/// a pipe, and every pipe stands between two words.
pub open spec fn well_formed(tokens: Seq<TokenView>) -> bool {
    &&& tokens.len() > 0
    &&& forall|i: int| 0 <= i < tokens.len() ==> !((#[trigger] tokens[i]) is Variable)
    &&& !(tokens[0] is Pipe)
    &&& !(tokens[tokens.len() - 1] is Pipe)
    &&& forall|i: int|
        0 <= i < tokens.len() - 1 ==> !((#[trigger] tokens[i]) is Pipe && tokens[i + 1] is Pipe)
}

/// The index of the first pipe at or behind `i`, or the number of tokens
/// where there is none.
pub open spec fn stage_end(tokens: Seq<TokenView>, i: int) -> int
    decreases tokens.len() - i,
{
    if 0 <= i < tokens.len() && !(tokens[i] is Pipe) {
        stage_end(tokens, i + 1)
    } else {
        i
    }
}

/// The text of a word.
pub open spec fn word_text(token: TokenView) -> Seq<char> {
    match token {
        TokenView::Word(text) => text,
        _ => Seq::empty(),
    }
}

/// The texts of the tokens from index `i` up to, not including, `j`.
pub open spec fn words_between(tokens: Seq<TokenView>, i: int, j: int) -> Seq<Seq<char>> {
    Seq::new((j - i) as nat, |k: int| word_text(tokens[i + k]))
}

/// The end of a stage lies at or behind its beginning, within the tokens.
pub proof fn lemma_stage_end_bounds(tokens: Seq<TokenView>, i: int)
    requires
        0 <= i <= tokens.len(),
    ensures
        i <= stage_end(tokens, i) <= tokens.len(),
    decreases tokens.len() - i,
{
    if i < tokens.len() && !(tokens[i] is Pipe) {
        lemma_stage_end_bounds(tokens, i + 1);
    }
}

/// The stages of the tokens from index `i` on: the words up to the next
/// pipe, then the stages behind that pipe.
pub open spec fn pipeline_from(tokens: Seq<TokenView>, i: int) -> Seq<Seq<Seq<char>>>
    decreases tokens.len() - i,
{
    if i < 0 || i > tokens.len() {
        Seq::empty()
    } else {
        let j = stage_end(tokens, i);
        if j >= tokens.len() {
            seq![words_between(tokens, i, j)]
        } else {
            proof {
                lemma_stage_end_bounds(tokens, i);
            }
            seq![words_between(tokens, i, j)] + pipeline_from(tokens, j + 1)
        }
    }
}

/// What the tokens parse to: their stages where they form a pipeline.
pub open spec fn parse_result(tokens: Seq<TokenView>) -> Result<
    Seq<Seq<Seq<char>>>,
    SyntaxError,
> {
    if well_formed(tokens) {
        Ok(pipeline_from(tokens, 0))
    } else {
        Err(SyntaxError {  })
    }
}

/// View of what [`parse_tokens`] returns.
pub open spec fn view_pipeline(r: Result<Vec<Command>, SyntaxError>) -> Result<
    Seq<Seq<Seq<char>>>,
    SyntaxError,
> {
    match r {
        Ok(pipeline) => Ok(pipeline.deep_view()),
        Err(e) => Err(e),
    }
}

/// Splits expanded tokens at the pipes into the stages of a pipeline. Fails
/// where there is no token, where a pipe stands first or last or next to
/// another pipe, and where a variable reference is left among the tokens. A
/// pipeline that comes out has at least one stage, and each stage at least
/// one word.
pub fn parse_tokens(tokens: &Vec<Token>) -> (r: Result<Vec<Command>, SyntaxError>)
    ensures
        view_pipeline(r) == parse_result(tokens.deep_view()),
        r matches Ok(pipeline) ==> pipeline.len() >= 1 && stages_named(pipeline.deep_view()),
{
    let ghost t = tokens.deep_view();
    if tokens.len() == 0 {
        return Err(SyntaxError {  });
    }
    let mut stages: Vec<Command> = Vec::new();
    let mut i: usize = 0;
    assert(stages.deep_view() =~= Seq::<Seq<Seq<char>>>::empty());
    assert(Seq::<Seq<Seq<char>>>::empty() + pipeline_from(t, 0) =~= pipeline_from(t, 0));
    loop
        invariant
            t == tokens.deep_view(),
            t.len() == tokens.len(),
            tokens.len() > 0,
            i <= tokens.len(),
            forall|k: int| 0 <= k < i ==> !((#[trigger] t[k]) is Variable),
            i > 0 ==> t[i - 1] is Pipe && !(t[0] is Pipe),
            forall|k: int| 0 <= k < i - 1 ==> !((#[trigger] t[k]) is Pipe && t[k + 1] is Pipe),
            pipeline_from(t, 0) == stages.deep_view() + pipeline_from(t, i as int),
            stages_named(stages.deep_view()),
            stages.len() == 0 <==> i == 0,
        decreases tokens.len() - i,
    {
        let mut words: Vec<String> = Vec::new();
        let mut j: usize = i;
        loop
            invariant
                t == tokens.deep_view(),
                t.len() == tokens.len(),
                i <= j <= tokens.len(),
                forall|k: int| i <= k < j ==> (#[trigger] t[k]) is Word,
                words.len() == j - i,
                forall|k: int| 0 <= k < words.len() ==> (#[trigger] words[k])@ == word_text(t[i + k]),
                stage_end(t, i as int) == stage_end(t, j as int),
            ensures
                i <= j <= tokens.len(),
                forall|k: int| i <= k < j ==> (#[trigger] t[k]) is Word,
                words.deep_view() == words_between(t, i as int, j as int),
                stage_end(t, i as int) == j,
                j < tokens.len() ==> t[j as int] is Pipe,
            decreases tokens.len() - j,
        {
            if j >= tokens.len() {
                assert(words.deep_view() =~= words_between(t, i as int, j as int));
                break;
            }
            assert(t[j as int] == tokens[j as int]@);
            match &tokens[j] {
                Token::Pipe => {
                    assert(words.deep_view() =~= words_between(t, i as int, j as int));
                    break;
                },
                Token::Variable(_) => {
                    return Err(SyntaxError {  });
                },
                Token::Word(text) => {
                    words.push(text.clone());
                    j += 1;
                },
            }
        }
        if j == i {
            return Err(SyntaxError {  });
        }
        let ghost done = stages.deep_view();
        let ghost stage = words.deep_view();
        stages.push(Command { words });
        proof {
            lemma_stage_end_bounds(t, i as int);
            assert(stages.deep_view() =~= done.push(stage));
        }
        if j >= tokens.len() {
            assert(done + seq![stage] =~= stages.deep_view());
            assert(t[tokens.len() - 1] is Word);
            return Ok(stages);
        }
        assert(done + (seq![stage] + pipeline_from(t, j + 1)) =~= stages.deep_view()
            + pipeline_from(t, j + 1));
        assert(t[j - 1] is Word);
        i = j + 1;
    }
}

/// A stage ends at the first pipe behind its beginning, or with the tokens.
proof fn lemma_stage_end_is_pipe(tokens: Seq<TokenView>, i: int)
    requires
        0 <= i <= tokens.len(),
    ensures
        stage_end(tokens, i) < tokens.len() ==> tokens[stage_end(tokens, i)] is Pipe,
        i < tokens.len() && !(tokens[i] is Pipe) ==> i < stage_end(tokens, i),
    decreases tokens.len() - i,
{
    if i < tokens.len() && !(tokens[i] is Pipe) {
        lemma_stage_end_bounds(tokens, i + 1);
        lemma_stage_end_is_pipe(tokens, i + 1);
    }
}

proof fn lemma_stages_named_from(tokens: Seq<TokenView>, i: int)
    requires
        well_formed(tokens),
        0 <= i < tokens.len(),
        i > 0 ==> tokens[i - 1] is Pipe,
    ensures
        pipeline_from(tokens, i).len() >= 1,
        stages_named(pipeline_from(tokens, i)),
    decreases tokens.len() - i,
{
    let j = stage_end(tokens, i);
    lemma_stage_end_bounds(tokens, i);
    lemma_stage_end_is_pipe(tokens, i);
    if i > 0 {
        assert(!(tokens[i - 1] is Pipe && tokens[i] is Pipe));
    }
    assert(words_between(tokens, i, j).len() >= 1);
    if j < tokens.len() {
        lemma_stages_named_from(tokens, j + 1);
        let rest = pipeline_from(tokens, j + 1);
        let all = seq![words_between(tokens, i, j)] + rest;
        assert forall|k: int| 0 <= k < all.len() implies (#[trigger] all[k]).len() >= 1 by {
            if k > 0 {
                assert(all[k] == rest[k - 1]);
            }
        }
    }
}

/// The pipeline of tokens that form one has at least one stage, and each of
/// its stages has at least one word.
pub proof fn lemma_pipeline_is_named(tokens: Seq<TokenView>)
    requires
        well_formed(tokens),
    ensures
        parse_result(tokens) matches Ok(pipeline) && pipeline.len() >= 1 && stages_named(
            pipeline,
        ),
{
    lemma_stages_named_from(tokens, 0);
}

} // verus!
