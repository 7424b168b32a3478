//! The reorderer: the shunting-yard algorithm, turning the token sequence
//! into postfix (reverse Polish) order with an operator stack. It never
//! fails; unbalanced parentheses are tolerated silently, as the contract of
//! this stage states.

use vstd::prelude::*;

use crate::token::{Token, TokenKind, TokenModel, token_models, token_ref_models};

verus! {

/// The precedence table: `^` binds tightest, then `*` and `/`; everything
/// else, `+` and `-` included, is lowest.
pub open spec fn spec_precedence(text: Seq<char>) -> u8 {
    if text == seq!['^'] {
        2
    } else if text == seq!['*'] || text == seq!['/'] {
        1
    } else {
        0
    }
}

/// The precedence of a token, by its text.
pub fn precedence(token: &Token) -> (r: u8)
    ensures
        r == spec_precedence(token@.text),
{
    let text = token.text.as_str();
    if text.unicode_len() == 1 {
        let c = text.get_char(0);
        proof {
            assert(seq!['^'].len() == 1 && seq!['^'][0] == '^');
            assert(seq!['*'].len() == 1 && seq!['*'][0] == '*');
            assert(seq!['/'].len() == 1 && seq!['/'][0] == '/');
        }
        if c == '^' {
            proof {
                assert(token@.text =~= seq!['^']);
            }
            2
        } else if c == '*' {
            proof {
                assert(token@.text =~= seq!['*']);
            }
            1
        } else if c == '/' {
            proof {
                assert(token@.text =~= seq!['/']);
            }
            1
        } else {
            0
        }
    } else {
        proof {
            assert(seq!['^'].len() == 1 && seq!['*'].len() == 1 && seq!['/'].len() == 1);
        }
        0
    }
}

/// One run of the shunting yard from the middle of its work: `i` tokens are
/// already consumed, `stack` and `queue` hold what they hold, and the result
/// is the final output queue. Each recursive step is one push or one pop:
/// - a number or identifier goes straight to the queue;
/// - an operator first pops every stacked operator of strictly greater
///   precedence (never past a left parenthesis), then goes on the stack;
/// - a left parenthesis goes on the stack unconditionally;
/// - a right parenthesis pops operators to the queue until a left
///   parenthesis, which is discarded; with no left parenthesis on the stack
///   it is itself discarded silently;
/// - when the input is exhausted, the stack is drained to the queue in LIFO
///   order, orphaned left parentheses included.
pub open spec fn sy_run(
    ts: Seq<TokenModel>,
    i: int,
    stack: Seq<TokenModel>,
    queue: Seq<TokenModel>,
) -> Seq<TokenModel>
    decreases ts.len() - i, stack.len(),
{
    if i < 0 || i >= ts.len() {
        if stack.len() == 0 {
            queue
        } else {
            sy_run(ts, i, stack.drop_last(), queue.push(stack.last()))
        }
    } else {
        let t = ts[i];
        match t.kind {
            TokenKind::Number => sy_run(ts, i + 1, stack, queue.push(t)),
            TokenKind::Identifier => sy_run(ts, i + 1, stack, queue.push(t)),
            TokenKind::Operator => if stack.len() > 0 && stack.last().kind != TokenKind::LeftParen
                && spec_precedence(stack.last().text) > spec_precedence(t.text) {
                sy_run(ts, i, stack.drop_last(), queue.push(stack.last()))
            } else {
                sy_run(ts, i + 1, stack.push(t), queue)
            },
            TokenKind::LeftParen => sy_run(ts, i + 1, stack.push(t), queue),
            TokenKind::RightParen => if stack.len() > 0 && stack.last().kind
                != TokenKind::LeftParen {
                sy_run(ts, i, stack.drop_last(), queue.push(stack.last()))
            } else if stack.len() > 0 {
                sy_run(ts, i + 1, stack.drop_last(), queue)
            } else {
                sy_run(ts, i + 1, stack, queue)
            },
        }
    }
}

/// The reorderer's meaning: the postfix order of the whole token sequence.
pub open spec fn spec_shunting_yard(ts: Seq<TokenModel>) -> Seq<TokenModel> {
    sy_run(ts, 0, Seq::empty(), Seq::empty())
}

/// Reorders the tokens into postfix (reverse Polish) order, consumable by a
/// single-pass stack evaluator. Never fails: unbalanced parentheses are
/// tolerated silently.
pub fn shunting_yard<'a>(tokens: &'a Vec<Token>) -> (r: Vec<&'a Token>)
    ensures
        token_ref_models(r@) == spec_shunting_yard(token_models(tokens@)),
{
    let ghost all = token_models(tokens@);
    let mut queue: Vec<&'a Token> = Vec::new();
    let mut stack: Vec<&'a Token> = Vec::new();
    let n: usize = tokens.len();
    proof {
        assert(token_ref_models(queue@) =~= Seq::<TokenModel>::empty());
        assert(token_ref_models(stack@) =~= Seq::<TokenModel>::empty());
    }
    let mut i: usize = 0;
    while i < n
        invariant
            n == tokens@.len(),
            i <= n,
            all == token_models(tokens@),
            sy_run(all, i as int, token_ref_models(stack@), token_ref_models(queue@))
                == spec_shunting_yard(all),
        decreases n - i,
    {
        let token: &'a Token = &tokens[i];
        proof {
            assert(token@ == all[i as int]);
        }
        match token.kind {
            TokenKind::Number | TokenKind::Identifier => {
                let ghost q = token_ref_models(queue@);
                queue.push(token);
                proof {
                    assert(token_ref_models(queue@) =~= q.push(all[i as int]));
                }
                i = i + 1;
            },
            TokenKind::Operator => {
                while stack.len() > 0 && stack[stack.len() - 1].kind != TokenKind::LeftParen
                    && precedence(stack[stack.len() - 1]) > precedence(token)
                    invariant
                        n == tokens@.len(),
                        i < n,
                        all == token_models(tokens@),
                        token@ == all[i as int],
                        all[i as int].kind == TokenKind::Operator,
                        sy_run(all, i as int, token_ref_models(stack@), token_ref_models(queue@))
                            == spec_shunting_yard(all),
                    decreases stack.len(),
                {
                    let ghost st = token_ref_models(stack@);
                    let ghost q = token_ref_models(queue@);
                    let top = stack.pop().unwrap();
                    queue.push(top);
                    proof {
                        assert(token_ref_models(stack@) =~= st.drop_last());
                        assert(token_ref_models(queue@) =~= q.push(st.last()));
                    }
                }
                let ghost st = token_ref_models(stack@);
                stack.push(token);
                proof {
                    assert(token_ref_models(stack@) =~= st.push(all[i as int]));
                }
                i = i + 1;
            },
            TokenKind::LeftParen => {
                let ghost st = token_ref_models(stack@);
                stack.push(token);
                proof {
                    assert(token_ref_models(stack@) =~= st.push(all[i as int]));
                }
                i = i + 1;
            },
            TokenKind::RightParen => {
                while stack.len() > 0 && stack[stack.len() - 1].kind != TokenKind::LeftParen
                    invariant
                        n == tokens@.len(),
                        i < n,
                        all == token_models(tokens@),
                        all[i as int].kind == TokenKind::RightParen,
                        sy_run(all, i as int, token_ref_models(stack@), token_ref_models(queue@))
                            == spec_shunting_yard(all),
                    decreases stack.len(),
                {
                    let ghost st = token_ref_models(stack@);
                    let ghost q = token_ref_models(queue@);
                    let top = stack.pop().unwrap();
                    queue.push(top);
                    proof {
                        assert(token_ref_models(stack@) =~= st.drop_last());
                        assert(token_ref_models(queue@) =~= q.push(st.last()));
                    }
                }
                if stack.len() > 0 {
                    let ghost st = token_ref_models(stack@);
                    let _ = stack.pop();
                    proof {
                        assert(token_ref_models(stack@) =~= st.drop_last());
                    }
                }
                i = i + 1;
            },
        }
    }
    while stack.len() > 0
        invariant
            sy_run(all, n as int, token_ref_models(stack@), token_ref_models(queue@))
                == spec_shunting_yard(all),
            n == tokens@.len(),
            all == token_models(tokens@),
        decreases stack.len(),
    {
        let ghost st = token_ref_models(stack@);
        let ghost q = token_ref_models(queue@);
        let top = stack.pop().unwrap();
        queue.push(top);
        proof {
            assert(token_ref_models(stack@) =~= st.drop_last());
            assert(token_ref_models(queue@) =~= q.push(st.last()));
        }
    }
    proof {
        assert(token_ref_models(stack@) =~= Seq::<TokenModel>::empty());
    }
    queue
}

} // verus!
