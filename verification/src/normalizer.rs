use vstd::prelude::*;
use vstd::string::*;
use crate::error::{AsonError, ErrorView};
use crate::lexer::{lexed_text, Lexer};
use crate::location::Location;
use crate::peekableiter::{lemma_first_error_bound, until_error, PeekableIter, TokenIter};
use crate::text::{decimal, push_decimal};
use crate::token::{
    item_view, Item, ItemView, NumberToken, NumberTokenView, Token, TokenView, TokenWithRange,
    TokenWithRangeView,
};

verus! {

/// Whether an item is a line break.
pub open spec fn is_newline(item: ItemView) -> bool {
    item matches Ok(t) && t.token is NewLine
}

/// Whether an item is a comma.
pub open spec fn is_comma(item: ItemView) -> bool {
    item matches Ok(t) && t.token is Comma
}

/// Whether an item is a comment.
pub open spec fn is_comment(item: ItemView) -> bool {
    item matches Ok(t) && t.token is Comment
}

/// The range of an item that is a token.
pub open spec fn range_of(item: ItemView) -> Location {
    item->Ok_0.range
}

/// The stream `s` without its comments.
pub open spec fn cleaned(s: Seq<ItemView>) -> Seq<ItemView>
    decreases s.len(),
{
    if s.len() == 0 {
        Seq::empty()
    } else if is_comment(s[0]) {
        cleaned(s.skip(1))
    } else {
        seq![s[0]] + cleaned(s.skip(1))
    }
}

/// The stage that drops the comments.
pub struct ClearTokenIter {
    upstream: PeekableIter,
}

impl ClearTokenIter {
    /// What is left of the stream that the stage reads.
    pub closed spec fn upstream(&self) -> Seq<ItemView> {
        self.upstream.remaining()
    }

    /// The stage over the stream `upstream`.
    pub fn new(upstream: PeekableIter) -> (r: ClearTokenIter)
        ensures
            r.upstream() == upstream.remaining(),
    {
        ClearTokenIter { upstream }
    }
}

impl TokenIter for ClearTokenIter {
    open spec fn stream(&self) -> Seq<ItemView> {
        cleaned(self.upstream())
    }

    fn next(&mut self) -> (r: Option<Item>) {
        clean(self)
    }
}

/// Hands out the next item that is no comment.
pub fn clean(iter: &mut ClearTokenIter) -> (r: Option<Item>)
    ensures
        old(iter).stream().len() == 0 ==> r is None && final(iter).stream().len() == 0,
        old(iter).stream().len() > 0 ==> r is Some && item_view(r->0) == old(iter).stream()[0]
            && final(iter).stream() == old(iter).stream().skip(1),
{
    loop
        invariant
            cleaned(iter.upstream.remaining()) == cleaned(old(iter).upstream.remaining()),
        decreases iter.upstream.remaining().len(),
    {
        let ghost before = iter.upstream.remaining();
        match iter.upstream.next() {
            Some(item) => {
                let is_comment = match &item {
                    Ok(TokenWithRange { token: Token::Comment(_), .. }) => true,
                    _ => false,
                };
                if !is_comment {
                    assert(cleaned(before).skip(1) =~= cleaned(before.skip(1)));
                    return Some(item);
                }
            },
            None => {
                return None;
            },
        }
    }
}

/// How many line breaks the stream begins with.
pub open spec fn newline_run(s: Seq<ItemView>) -> int
    decreases s.len(),
{
    if s.len() > 0 && is_newline(s[0]) {
        1 + newline_run(s.skip(1))
    } else {
        0
    }
}

/// The leading line breaks of a stream are items of it, and what follows
/// them is no line break.
pub proof fn lemma_newline_run(s: Seq<ItemView>)
    ensures
        0 <= newline_run(s) <= s.len(),
        forall|i: int| 0 <= i < newline_run(s) ==> is_newline(#[trigger] s[i]),
        newline_run(s) < s.len() ==> !is_newline(s[newline_run(s)]),
    decreases s.len(),
{
    if s.len() > 0 && is_newline(s[0]) {
        lemma_newline_run(s.skip(1));
        assert forall|i: int| 0 <= i < newline_run(s) implies is_newline(#[trigger] s[i]) by {
            if i > 0 {
                assert(s[i] == s.skip(1)[i - 1]);
            }
        }
        if newline_run(s) < s.len() {
            assert(s[newline_run(s)] == s.skip(1)[newline_run(s) - 1]);
        }
    }
}

/// One step of a stage: the item it hands out and how many items of its
/// upstream it used up.
pub ghost struct Step {
    pub item: ItemView,
    pub taken: int,
}

/// The item of a token with its range.
pub open spec fn token_item(token: TokenView, range: Location) -> ItemView {
    Ok(TokenWithRangeView { token, range })
}

/// The item of an error with a place.
pub open spec fn error_item(message: Seq<char>, range: Location) -> ItemView {
    Err(ErrorView::MessageWithLocation(message, range))
}

/// The message for a signed number above the largest value of its type.
pub open spec fn overflow_message(n: NumberTokenView) -> Seq<char> {
    "The "@ + n.suffix_name() + " number "@ + decimal(n.signed_magnitude().unwrap())
        + " is overflowed."@
}

/// The message for a signed number whose negative is below the smallest
/// value of its type.
pub open spec fn negative_message(n: NumberTokenView) -> Seq<char> {
    "Can not convert \""@ + decimal(n.signed_magnitude().unwrap()) + "\" to negative "@
        + n.suffix_name() + "."@
}

/// What a plus sign at `sign` gives with the stream `after` behind it.
pub open spec fn plus_step(sign: Location, after: Seq<ItemView>) -> Step {
    if after.len() == 0 {
        Step {
            item: Err(
                ErrorView::UnexpectedEndOfDocument(
                    "Missing the number that follow the plus sign."@,
                ),
            ),
            taken: 1,
        }
    } else {
        match after[0] {
            Err(e) => Step { item: Err(e), taken: 1 },
            Ok(t) => {
                let range = sign.join(t.range);
                match t.token {
                    TokenView::Number(n) => {
                        if n.is_nan() {
                            Step {
                                item: error_item("The plus sign cannot be applied to NaN."@, range),
                                taken: 1,
                            }
                        } else if n.is_overflowed() {
                            Step { item: error_item(overflow_message(n), range), taken: 1 }
                        } else {
                            Step { item: token_item(TokenView::Number(n), range), taken: 2 }
                        }
                    },
                    _ => Step {
                        item: error_item("The plus sign can only be applied to numbers."@, range),
                        taken: 1,
                    },
                }
            },
        }
    }
}

/// What a minus sign at `sign` gives with the stream `after` behind it.
pub open spec fn minus_step(sign: Location, after: Seq<ItemView>) -> Step {
    if after.len() == 0 {
        Step {
            item: Err(
                ErrorView::UnexpectedEndOfDocument(
                    "Missing the number that follow the minus sign."@,
                ),
            ),
            taken: 1,
        }
    } else {
        match after[0] {
            Err(e) => Step { item: Err(e), taken: 1 },
            Ok(t) => {
                let range = sign.join(t.range);
                match t.token {
                    TokenView::Number(n) => {
                        if n.is_nan() {
                            Step {
                                item: error_item(
                                    "The minus sign cannot be applied to NaN."@,
                                    range,
                                ),
                                taken: 1,
                            }
                        } else if n.is_unsigned() {
                            Step {
                                item: error_item(
                                    "The minus sign cannot be applied to unsigned numbers."@,
                                    range,
                                ),
                                taken: 1,
                            }
                        } else if n.can_negate() {
                            Step {
                                item: token_item(TokenView::Number(n.negated()), range),
                                taken: 2,
                            }
                        } else {
                            Step { item: error_item(negative_message(n), range), taken: 1 }
                        }
                    },
                    _ => Step {
                        item: error_item("The minus sign can only be applied to numbers."@, range),
                        taken: 1,
                    },
                }
            },
        }
    }
}

/// One step of the main stage on a stream that is not empty.
///
/// - An error is handed on.
/// - A run of line breaks becomes one line break over the range of the run,
///   unless a comma follows: then the run, the comma and the line breaks
///   behind it become one comma.
/// - A comma takes the line breaks behind it with it.
/// - A sign is applied to the number behind it.
/// - A signed number above the largest value of its type is an error.
/// - Every other token is handed on.
pub open spec fn normalize_step(s: Seq<ItemView>) -> Step
    recommends
        s.len() > 0,
{
    match s[0] {
        Err(e) => Step { item: Err(e), taken: 1 },
        Ok(first) => match first.token {
            TokenView::NewLine => {
                let n = newline_run(s);
                if n < s.len() && is_comma(s[n]) {
                    let comma = range_of(s[n]);
                    Step {
                        item: token_item(TokenView::Comma, comma.join(comma)),
                        taken: n + 1 + newline_run(s.skip(n + 1)),
                    }
                } else {
                    Step {
                        item: token_item(
                            TokenView::NewLine,
                            first.range.join(range_of(s[n - 1])),
                        ),
                        taken: n,
                    }
                }
            },
            TokenView::Comma => Step {
                item: token_item(TokenView::Comma, first.range.join(first.range)),
                taken: 1 + newline_run(s.skip(1)),
            },
            TokenView::Plus => plus_step(first.range, s.skip(1)),
            TokenView::Minus => minus_step(first.range, s.skip(1)),
            TokenView::Number(n) => if n.is_overflowed() {
                Step { item: error_item(overflow_message(n), first.range), taken: 1 }
            } else {
                Step { item: s[0], taken: 1 }
            },
            _ => Step { item: s[0], taken: 1 },
        },
    }
}

/// A step uses up at least one item and no more than there are.
pub proof fn lemma_step_taken(s: Seq<ItemView>)
    requires
        s.len() > 0,
    ensures
        1 <= normalize_step(s).taken <= s.len(),
{
    lemma_newline_run(s);
    lemma_newline_run(s.skip(1));
    let n = newline_run(s);
    if n < s.len() {
        lemma_newline_run(s.skip(n + 1));
    }
}

/// The stream that the main stage makes of `s`.
pub open spec fn normalized(s: Seq<ItemView>) -> Seq<ItemView>
    decreases s.len(),
{
    if s.len() == 0 {
        Seq::empty()
    } else {
        let step = normalize_step(s);
        proof {
            lemma_step_taken(s);
        }
        seq![step.item] + normalized(s.skip(step.taken))
    }
}

/// The stage that joins line breaks and commas, applies signs, and holds
/// signed numbers to their range.
pub struct NormalizedTokenIter {
    upstream: PeekableIter,
}

impl NormalizedTokenIter {
    /// What is left of the stream that the stage reads.
    pub closed spec fn upstream(&self) -> Seq<ItemView> {
        self.upstream.remaining()
    }

    /// The stage over the stream `upstream`.
    pub fn new(upstream: PeekableIter) -> (r: NormalizedTokenIter)
        ensures
            r.upstream() == upstream.remaining(),
    {
        NormalizedTokenIter { upstream }
    }
}

impl TokenIter for NormalizedTokenIter {
    open spec fn stream(&self) -> Seq<ItemView> {
        normalized(self.upstream())
    }

    fn next(&mut self) -> (r: Option<Item>) {
        proof {
            if self.upstream().len() > 0 {
                lemma_step_taken(self.upstream());
            }
        }
        let r = normalize(self);
        proof {
            let s = old(self).upstream();
            if s.len() > 0 {
                assert(normalized(s).skip(1) =~= normalized(s.skip(normalize_step(s).taken)));
            }
        }
        r
    }
}

/// The range of the next item, if it is a line break.
fn peek_newline(upstream: &PeekableIter) -> (r: Option<Location>)
    ensures
        r is Some == (upstream.remaining().len() > 0 && is_newline(upstream.remaining()[0])),
        r matches Some(range) ==> range == range_of(upstream.remaining()[0]),
{
    match upstream.peek(0) {
        Some(Ok(TokenWithRange { token: Token::NewLine, range })) => Some(*range),
        _ => None,
    }
}

/// The range of the next item, if it is a comma.
fn peek_comma(upstream: &PeekableIter) -> (r: Option<Location>)
    ensures
        r is Some == (upstream.remaining().len() > 0 && is_comma(upstream.remaining()[0])),
        r matches Some(range) ==> range == range_of(upstream.remaining()[0]),
{
    match upstream.peek(0) {
        Some(Ok(TokenWithRange { token: Token::Comma, range })) => Some(*range),
        _ => None,
    }
}

/// Takes the line breaks that the stream begins with, and gives the range
/// of the last of them.
fn skip_newlines(upstream: &mut PeekableIter) -> (last: Option<Location>)
    ensures
        final(upstream).remaining() == old(upstream).remaining().skip(
            newline_run(old(upstream).remaining()),
        ),
        last is Some == (newline_run(old(upstream).remaining()) > 0),
        last matches Some(range) ==> range == range_of(
            old(upstream).remaining()[newline_run(old(upstream).remaining()) - 1],
        ),
{
    let ghost all = upstream.remaining();
    let ghost mut taken: int = 0;
    let mut last: Option<Location> = None;
    proof {
        assert(all.skip(0) =~= all);
    }
    loop
        invariant
            all == old(upstream).remaining(),
            0 <= taken <= all.len(),
            upstream.remaining() == all.skip(taken),
            newline_run(all) == taken + newline_run(upstream.remaining()),
            last is Some == (taken > 0),
            last matches Some(range) ==> range == range_of(all[taken - 1]),
        ensures
            taken == newline_run(all),
            upstream.remaining() == all.skip(taken),
            last is Some == (taken > 0),
            last matches Some(range) ==> range == range_of(all[taken - 1]),
        decreases upstream.remaining().len(),
    {
        match peek_newline(upstream) {
            Some(range) => {
                last = Some(range);
                upstream.next();
                proof {
                    assert(all.skip(taken)[0] == all[taken]);
                    assert(all.skip(taken).skip(1) =~= all.skip(taken + 1));
                    taken = taken + 1;
                }
            },
            None => {
                break ;
            },
        }
    }
    last
}

/// The error for a signed number above the largest value of its type.
fn overflow_error(n: &NumberToken, range: Location) -> (r: AsonError)
    requires
        n@.signed_magnitude() is Some,
    ensures
        r@ == ErrorView::MessageWithLocation(overflow_message(n@), range),
{
    let mut message = String::from_str("The ");
    message.append(n.suffix_name());
    message.append(" number ");
    push_decimal(&mut message, n.signed_magnitude().unwrap());
    message.append(" is overflowed.");
    AsonError::MessageWithLocation(message, range)
}

/// The error for a signed number whose negative is below the smallest value
/// of its type.
fn negative_error(n: &NumberToken, range: Location) -> (r: AsonError)
    requires
        n@.signed_magnitude() is Some,
    ensures
        r@ == ErrorView::MessageWithLocation(negative_message(n@), range),
{
    let mut message = String::from_str("Can not convert \"");
    push_decimal(&mut message, n.signed_magnitude().unwrap());
    message.append("\" to negative ");
    message.append(n.suffix_name());
    message.append(".");
    AsonError::MessageWithLocation(message, range)
}

/// Applies a plus sign at `sign` to what the stream holds next.
fn apply_plus(upstream: &mut PeekableIter, sign: Location) -> (r: Item)
    ensures
        item_view(r) == plus_step(sign, old(upstream).remaining()).item,
        final(upstream).remaining() == old(upstream).remaining().skip(
            plus_step(sign, old(upstream).remaining()).taken - 1,
        ),
{
    let ghost after = upstream.remaining();
    proof {
        assert(after.skip(0) =~= after);
    }
    match upstream.peek(0) {
        None => Err(AsonError::end_of_document("Missing the number that follow the plus sign.")),
        Some(Err(e)) => Err(e.duplicate()),
        Some(Ok(TokenWithRange { token, range })) => {
            let joined = Location::from_range_pair(&sign, range);
            match token {
                Token::Number(n) => {
                    if n.is_nan() {
                        Err(AsonError::at("The plus sign cannot be applied to NaN.", joined))
                    } else if n.is_overflowed() {
                        Err(overflow_error(n, joined))
                    } else {
                        match upstream.next() {
                            Some(Ok(TokenWithRange { token: number, range: _ })) => Ok(
                                TokenWithRange::new(number, joined),
                            ),
                            Some(Err(e)) => Err(e),
                            None => Err(
                                AsonError::end_of_document(
                                    "Missing the number that follow the plus sign.",
                                ),
                            ),
                        }
                    }
                },
                _ => Err(AsonError::at("The plus sign can only be applied to numbers.", joined)),
            }
        },
    }
}

/// Applies a minus sign at `sign` to what the stream holds next.
fn apply_minus(upstream: &mut PeekableIter, sign: Location) -> (r: Item)
    ensures
        item_view(r) == minus_step(sign, old(upstream).remaining()).item,
        final(upstream).remaining() == old(upstream).remaining().skip(
            minus_step(sign, old(upstream).remaining()).taken - 1,
        ),
{
    let ghost after = upstream.remaining();
    proof {
        assert(after.skip(0) =~= after);
    }
    match upstream.peek(0) {
        None => Err(AsonError::end_of_document("Missing the number that follow the minus sign.")),
        Some(Err(e)) => Err(e.duplicate()),
        Some(Ok(TokenWithRange { token, range })) => {
            let joined = Location::from_range_pair(&sign, range);
            match token {
                Token::Number(n) => {
                    if n.is_nan() {
                        Err(AsonError::at("The minus sign cannot be applied to NaN.", joined))
                    } else if n.is_unsigned() {
                        Err(
                            AsonError::at(
                                "The minus sign cannot be applied to unsigned numbers.",
                                joined,
                            ),
                        )
                    } else {
                        match n.duplicate().negated() {
                            Some(number) => {
                                upstream.next();
                                Ok(TokenWithRange::new(Token::Number(number), joined))
                            },
                            None => Err(negative_error(n, joined)),
                        }
                    }
                },
                _ => Err(AsonError::at("The minus sign can only be applied to numbers.", joined)),
            }
        },
    }
}

/// Hands out the next item of the main stage: one step on what is left of
/// its upstream.
pub fn normalize(iter: &mut NormalizedTokenIter) -> (r: Option<Item>)
    ensures
        old(iter).upstream().len() == 0 ==> r is None && final(iter).upstream().len() == 0,
        old(iter).upstream().len() > 0 ==> r is Some && item_view(r->0) == normalize_step(
            old(iter).upstream(),
        ).item && final(iter).upstream() == old(iter).upstream().skip(
            normalize_step(old(iter).upstream()).taken,
        ),
{
    let ghost s = iter.upstream.remaining();
    match iter.upstream.next() {
        None => None,
        Some(Err(e)) => Some(Err(e)),
        Some(Ok(TokenWithRange { token, range })) => {
            match token {
                Token::NewLine => {
                    let last = skip_newlines(&mut iter.upstream);
                    proof {
                        lemma_newline_run(s);
                        lemma_newline_run(s.skip(1));
                        assert(s.skip(1).skip(newline_run(s.skip(1))) =~= s.skip(
                            newline_run(s),
                        ));
                        if newline_run(s) < s.len() {
                            assert(s.skip(newline_run(s))[0] == s[newline_run(s)]);
                        }
                        if newline_run(s) > 1 {
                            assert(s.skip(1)[newline_run(s) - 2] == s[newline_run(s) - 1]);
                        }
                    }
                    let end_range = match last {
                        Some(r) => r,
                        None => range,
                    };
                    match peek_comma(&iter.upstream) {
                        Some(comma) => {
                            iter.upstream.next();
                            skip_newlines(&mut iter.upstream);
                            proof {
                                let n = newline_run(s);
                                assert(s.skip(n).skip(1) =~= s.skip(n + 1));
                                lemma_newline_run(s.skip(n + 1));
                                assert(s.skip(n + 1).skip(newline_run(s.skip(n + 1)))
                                    =~= s.skip(n + 1 + newline_run(s.skip(n + 1))));
                            }
                            Some(
                                Ok(
                                    TokenWithRange::new(
                                        Token::Comma,
                                        Location::from_range_pair(&comma, &comma),
                                    ),
                                ),
                            )
                        },
                        None => Some(
                            Ok(
                                TokenWithRange::new(
                                    Token::NewLine,
                                    Location::from_range_pair(&range, &end_range),
                                ),
                            ),
                        ),
                    }
                },
                Token::Comma => {
                    skip_newlines(&mut iter.upstream);
                    proof {
                        lemma_newline_run(s.skip(1));
                        assert(s.skip(1).skip(newline_run(s.skip(1))) =~= s.skip(
                            1 + newline_run(s.skip(1)),
                        ));
                    }
                    Some(
                        Ok(TokenWithRange::new(Token::Comma, Location::from_range_pair(&range, &range))),
                    )
                },
                Token::Plus => {
                    let r = apply_plus(&mut iter.upstream, range);
                    proof {
                        let taken = plus_step(range, s.skip(1)).taken;
                        assert(s.skip(1).skip(taken - 1) =~= s.skip(taken));
                    }
                    Some(r)
                },
                Token::Minus => {
                    let r = apply_minus(&mut iter.upstream, range);
                    proof {
                        let taken = minus_step(range, s.skip(1)).taken;
                        assert(s.skip(1).skip(taken - 1) =~= s.skip(taken));
                    }
                    Some(r)
                },
                Token::Number(n) => {
                    if n.is_overflowed() {
                        Some(Err(overflow_error(&n, range)))
                    } else {
                        Some(Ok(TokenWithRange::new(Token::Number(n), range)))
                    }
                },
                other => Some(Ok(TokenWithRange::new(other, range))),
            }
        },
    }
}

/// The stream without the line break that it begins with, if it begins
/// with one.
pub open spec fn without_leading_newline(s: Seq<ItemView>) -> Seq<ItemView> {
    if s.len() > 0 && is_newline(s[0]) {
        s.skip(1)
    } else {
        s
    }
}

/// The stream without the line break that it ends with, if it ends with
/// one.
pub open spec fn without_trailing_newline(s: Seq<ItemView>) -> Seq<ItemView> {
    if s.len() > 0 && is_newline(s.last()) {
        s.drop_last()
    } else {
        s
    }
}

/// The stream without a line break at its start and without one at its end.
pub open spec fn trimmed(s: Seq<ItemView>) -> Seq<ItemView> {
    without_trailing_newline(without_leading_newline(s))
}

/// The stage that drops a line break at the start of the document and one
/// at its end.
pub struct TrimmedTokenIter {
    upstream: PeekableIter,
}

impl TrimmedTokenIter {
    /// What is left of the stream that the stage reads.
    pub closed spec fn upstream(&self) -> Seq<ItemView> {
        self.upstream.remaining()
    }

    /// Takes the line break at the start of `upstream`, if there is one.
    pub fn new(upstream: PeekableIter) -> (r: TrimmedTokenIter)
        ensures
            r.upstream() == without_leading_newline(upstream.remaining()),
            r.stream() == trimmed(upstream.remaining()),
    {
        let mut upstream = upstream;
        if peek_newline(&upstream).is_some() {
            upstream.next();
        }
        TrimmedTokenIter { upstream }
    }
}

impl TokenIter for TrimmedTokenIter {
    open spec fn stream(&self) -> Seq<ItemView> {
        without_trailing_newline(self.upstream())
    }

    fn next(&mut self) -> (r: Option<Item>) {
        trim(self)
    }
}

/// Hands out the next item, unless it is a line break with nothing behind
/// it.
pub fn trim(iter: &mut TrimmedTokenIter) -> (r: Option<Item>)
    ensures
        old(iter).stream().len() == 0 ==> r is None && final(iter).stream().len() == 0,
        old(iter).stream().len() > 0 ==> r is Some && item_view(r->0) == old(iter).stream()[0]
            && final(iter).stream() == old(iter).stream().skip(1),
{
    let ghost s = iter.upstream.remaining();
    match iter.upstream.next() {
        Some(item) => {
            let is_last_newline = match &item {
                Ok(TokenWithRange { token: Token::NewLine, .. }) => iter.upstream.peek(0).is_none(),
                _ => false,
            };
            if is_last_newline {
                None
            } else {
                assert(without_trailing_newline(s.skip(1)) =~= without_trailing_newline(s).skip(1));
                Some(item)
            }
        },
        None => None,
    }
}

/// What the three stages make of the stream of a lexer, each stage reading
/// the one before it up to its first error.
pub open spec fn normalized_stream(lexed: Seq<ItemView>) -> Seq<ItemView> {
    until_error(trimmed(until_error(normalized(until_error(cleaned(until_error(lexed)))))))
}

/// Reads the tokens of a text and passes them through the three stages.
pub fn normalized_tokens(chars: Vec<char>) -> (r: PeekableIter)
    ensures
        r.remaining() == normalized_stream(lexed_text(chars@)),
{
    let mut lexer = Lexer::new(chars);
    let lexed = PeekableIter::new(&mut lexer);
    let mut clear_iter = ClearTokenIter::new(lexed);
    let cleared = PeekableIter::new(&mut clear_iter);
    let mut normalized_iter = NormalizedTokenIter::new(cleared);
    let normalized = PeekableIter::new(&mut normalized_iter);
    let mut trimmed_iter = TrimmedTokenIter::new(normalized);
    PeekableIter::new(&mut trimmed_iter)
}

/// No line break stands beside a line break, and no comma beside a line
/// break.
pub open spec fn well_separated(s: Seq<ItemView>) -> bool {
    forall|i: int|
        0 <= i < s.len() - 1 ==> {
            &&& !(is_newline(#[trigger] s[i]) && is_newline(s[i + 1]))
            &&& !(is_newline(s[i]) && is_comma(s[i + 1]))
            &&& !(is_comma(s[i]) && is_newline(s[i + 1]))
        }
}

/// What the main stage hands out first is a line break only if the stream
/// begins with one, and a comma only if the stream begins with a comma or a
/// line break.
proof fn lemma_first_normalized(s: Seq<ItemView>)
    requires
        s.len() > 0,
    ensures
        normalized(s).len() > 0,
        normalized(s)[0] == normalize_step(s).item,
        !is_newline(s[0]) ==> !is_newline(normalized(s)[0]),
        !is_newline(s[0]) && !is_comma(s[0]) ==> !is_comma(normalized(s)[0]),
{
}

/// A part of a well separated stream is well separated.
proof fn lemma_part_well_separated(s: Seq<ItemView>, from: int, to: int)
    requires
        well_separated(s),
        0 <= from <= to <= s.len(),
    ensures
        well_separated(s.subrange(from, to)),
{
    let part = s.subrange(from, to);
    assert forall|i: int| 0 <= i < part.len() - 1 implies {
        &&& !(is_newline(#[trigger] part[i]) && is_newline(part[i + 1]))
        &&& !(is_newline(part[i]) && is_comma(part[i + 1]))
        &&& !(is_comma(part[i]) && is_newline(part[i + 1]))
    } by {
        assert(part[i] == s[from + i]);
        assert(part[i + 1] == s[from + i + 1]);
    }
}

/// Whatever stream the main stage reads, in the stream it hands out no
/// line break stands beside a line break and no comma beside a line break.
pub proof fn lemma_normalized_well_separated(s: Seq<ItemView>)
    ensures
        well_separated(normalized(s)),
    decreases s.len(),
{
    if s.len() > 0 {
        let step = normalize_step(s);
        lemma_step_taken(s);
        let rest = s.skip(step.taken);
        let tail = normalized(rest);
        let out = normalized(s);
        lemma_normalized_well_separated(rest);
        lemma_newline_run(s);
        lemma_newline_run(s.skip(1));
        if newline_run(s) < s.len() {
            lemma_newline_run(s.skip(newline_run(s) + 1));
        }
        if rest.len() > 0 {
            lemma_first_normalized(rest);
            assert(rest[0] == s[step.taken]);
        }
        assert forall|i: int| 0 <= i < out.len() - 1 implies {
            &&& !(is_newline(#[trigger] out[i]) && is_newline(out[i + 1]))
            &&& !(is_newline(out[i]) && is_comma(out[i + 1]))
            &&& !(is_comma(out[i]) && is_newline(out[i + 1]))
        } by {
            if i > 0 {
                assert(out[i] == tail[i - 1]);
                assert(out[i + 1] == tail[i]);
            } else {
                assert(out[1] == tail[0]);
                assert(out[0] == step.item);
                if is_comma(step.item) && s[0] is Ok && s[0]->Ok_0.token is NewLine {
                    let n = newline_run(s);
                    let m = newline_run(s.skip(n + 1));
                    if n + 1 + m < s.len() {
                        assert(s.skip(n + 1)[m] == s[n + 1 + m]);
                    }
                }
                if is_comma(step.item) && s[0] is Ok && s[0]->Ok_0.token is Comma {
                    let m = newline_run(s.skip(1));
                    if 1 + m < s.len() {
                        assert(s.skip(1)[m] == s[1 + m]);
                    }
                }
            }
        }
    }
}

/// Whatever stream the lexer hands out, in the stream that leaves the three
/// stages no line break stands beside a line break and no comma beside a
/// line break.
pub proof fn lemma_normalized_stream_well_separated(lexed: Seq<ItemView>)
    ensures
        well_separated(normalized_stream(lexed)),
{
    let a = until_error(cleaned(until_error(lexed)));
    lemma_normalized_well_separated(a);
    let b = normalized(a);
    lemma_first_error_bound(b);
    lemma_part_well_separated(b, 0, until_error(b).len() as int);
    let c = until_error(b);
    assert(c =~= b.subrange(0, c.len() as int));
    let d = without_leading_newline(c);
    lemma_part_well_separated(c, c.len() - d.len(), c.len() as int);
    assert(d =~= c.subrange(c.len() - d.len(), c.len() as int));
    let e = without_trailing_newline(d);
    lemma_part_well_separated(d, 0, e.len() as int);
    assert(e =~= d.subrange(0, e.len() as int));
    lemma_first_error_bound(e);
    let f = until_error(e);
    lemma_part_well_separated(e, 0, f.len() as int);
    assert(f =~= e.subrange(0, f.len() as int));
}

} // verus!
