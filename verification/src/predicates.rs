//! Predicates for [`CapturedSpan`]s and [`CapturedEvent`]s: on the level, name and target of
//! the call site, on the parent and ancestor spans, and their combinations; and a scanner
//! finding the items that match a predicate.
use vstd::prelude::*;

use crate::capture::{Captured, CapturedSpan};
use crate::text::{str_chars, str_eq};
use crate::types::TracingLevel;

verus! {

/// Predicate over items of type `Item`.
pub trait ItemPredicate<Item> {
    /// Does the predicate hold for the item?
    spec fn holds(&self, item: &Item) -> bool;

    /// Evaluates the predicate on the item.
    fn eval(&self, item: &Item) -> (r: bool)
        ensures
            r == self.holds(item),
    ;
}

/// Predicate checking that a level is equal to the specified one.
#[derive(Debug, Clone, Copy, PartialEq, Eq)]
pub struct LevelEq {
    /// Expected level.
    pub level: TracingLevel,
}

impl ItemPredicate<TracingLevel> for LevelEq {
    open spec fn holds(&self, item: &TracingLevel) -> bool {
        *item == self.level
    }

    fn eval(&self, item: &TracingLevel) -> (r: bool) {
        *item == self.level
    }
}

/// Predicate checking that a level is at most as verbose as the specified one, as a level
/// filter does; a filter without a level (that is, turned off) matches no level.
#[derive(Debug, Clone, Copy, PartialEq, Eq)]
pub struct LevelAtMost {
    /// Most verbose level that matches, or `None` if no level matches.
    pub level: Option<TracingLevel>,
}

impl ItemPredicate<TracingLevel> for LevelAtMost {
    open spec fn holds(&self, item: &TracingLevel) -> bool {
        match self.level {
            Some(level) => item.rank() <= level.rank(),
            None => false,
        }
    }

    fn eval(&self, item: &TracingLevel) -> (r: bool) {
        match &self.level {
            Some(level) => item.is_at_most(level),
            None => false,
        }
    }
}

/// Predicate checking that a string is equal to the specified one.
#[derive(Debug, Clone, PartialEq, Eq)]
pub struct StrEq {
    /// Expected string.
    pub value: String,
}

impl ItemPredicate<String> for StrEq {
    open spec fn holds(&self, item: &String) -> bool {
        item@ == self.value@
    }

    fn eval(&self, item: &String) -> (r: bool) {
        str_eq(item.as_str(), self.value.as_str())
    }
}

/// Predicate checking that a string starts with the specified prefix.
#[derive(Debug, Clone, PartialEq, Eq)]
pub struct StrStartsWith {
    /// Expected prefix.
    pub prefix: String,
}

impl ItemPredicate<String> for StrStartsWith {
    open spec fn holds(&self, item: &String) -> bool {
        self.prefix@.len() <= item@.len() && item@.take(self.prefix@.len() as int) == self.prefix@
    }

    fn eval(&self, item: &String) -> (r: bool) {
        let text = str_chars(item.as_str());
        let prefix = str_chars(self.prefix.as_str());
        if prefix.len() > text.len() {
            return false;
        }
        let mut k: usize = 0;
        while k < prefix.len()
            invariant
                k <= prefix.len() <= text.len(),
                text@ == item@,
                prefix@ == self.prefix@,
                forall|m: int| 0 <= m < k ==> text@[m] == prefix@[m],
            decreases prefix.len() - k,
        {
            if text[k] != prefix[k] {
                assert(text@.take(prefix.len() as int)[k as int] != prefix@[k as int]);
                return false;
            }
            k += 1;
        }
        assert(text@.take(prefix.len() as int) =~= prefix@);
        true
    }
}

/// Predicate checking that a string ends with the specified suffix.
#[derive(Debug, Clone, PartialEq, Eq)]
pub struct StrEndsWith {
    /// Expected suffix.
    pub suffix: String,
}

impl ItemPredicate<String> for StrEndsWith {
    open spec fn holds(&self, item: &String) -> bool {
        self.suffix@.len() <= item@.len() && item@.skip(item@.len() - self.suffix@.len())
            == self.suffix@
    }

    fn eval(&self, item: &String) -> (r: bool) {
        let text = str_chars(item.as_str());
        let suffix = str_chars(self.suffix.as_str());
        if suffix.len() > text.len() {
            return false;
        }
        let offset = text.len() - suffix.len();
        let mut k: usize = 0;
        while k < suffix.len()
            invariant
                k <= suffix.len(),
                offset + suffix.len() == text.len(),
                text@ == item@,
                suffix@ == self.suffix@,
                forall|m: int| 0 <= m < k ==> text@[offset + m] == suffix@[m],
            decreases suffix.len() - k,
        {
            if text[offset + k] != suffix[k] {
                assert(text@.skip(offset as int)[k as int] != suffix@[k as int]);
                return false;
            }
            k += 1;
        }
        assert(text@.skip(offset as int) =~= suffix@);
        true
    }
}

/// Predicate for the level of a [`CapturedSpan`] or [`CapturedEvent`].
///
/// [`CapturedEvent`]: crate::capture::CapturedEvent
#[derive(Debug, Clone, Copy, PartialEq, Eq)]
pub struct LevelPredicate<P> {
    /// Predicate for the level.
    pub matches: P,
}

/// Creates a predicate for the level of a [`CapturedSpan`] or [`CapturedEvent`].
///
/// [`CapturedEvent`]: crate::capture::CapturedEvent
pub fn level<P: ItemPredicate<TracingLevel>>(matches: P) -> (r: LevelPredicate<P>)
    ensures
        r.matches == matches,
{
    LevelPredicate { matches }
}

impl<'a, P: ItemPredicate<TracingLevel>, T: Captured<'a>> ItemPredicate<T> for LevelPredicate<P> {
    open spec fn holds(&self, item: &T) -> bool {
        self.matches.holds(&item.call_site().level)
    }

    fn eval(&self, item: &T) -> (r: bool) {
        self.matches.eval(&item.metadata().level)
    }
}

/// Predicate for the name of a [`CapturedSpan`].
#[derive(Debug, Clone, Copy, PartialEq, Eq)]
pub struct NamePredicate<P> {
    /// Predicate for the name.
    pub matches: P,
}

/// Creates a predicate for the name of a [`CapturedSpan`].
pub fn name<P: ItemPredicate<String>>(matches: P) -> (r: NamePredicate<P>)
    ensures
        r.matches == matches,
{
    NamePredicate { matches }
}

impl<'a, P: ItemPredicate<String>> ItemPredicate<CapturedSpan<'a>> for NamePredicate<P> {
    open spec fn holds(&self, item: &CapturedSpan<'a>) -> bool {
        self.matches.holds(&item.call_site().name)
    }

    fn eval(&self, item: &CapturedSpan<'a>) -> (r: bool) {
        self.matches.eval(&Captured::metadata(item).name)
    }
}

/// Does the target match the prefix as per standard target filtering: the target is the
/// prefix itself, or starts with the prefix followed by `::`?
pub open spec fn target_matches(target: Seq<char>, prefix: Seq<char>) -> bool {
    let rest = target.skip(prefix.len() as int);
    &&& prefix.len() <= target.len()
    &&& target.take(prefix.len() as int) == prefix
    &&& (rest.len() == 0 || (rest.len() >= 2 && rest[0] == ':' && rest[1] == ':'))
}

/// Predicate for a target: matches the target itself and its submodules. E.g., the prefix
/// `tracing` matches `tracing` and `tracing::predicate` targets, but not `tracing_capture`.
#[derive(Debug, Clone, Copy, PartialEq, Eq)]
pub struct TargetStrPredicate<'a> {
    /// Target prefix.
    pub prefix: &'a str,
}

impl<'a> ItemPredicate<String> for TargetStrPredicate<'a> {
    open spec fn holds(&self, item: &String) -> bool {
        target_matches(item@, self.prefix@)
    }

    fn eval(&self, item: &String) -> (r: bool) {
        let target = str_chars(item.as_str());
        let prefix = str_chars(self.prefix);
        let n = prefix.len();
        if n > target.len() {
            return false;
        }
        let mut k: usize = 0;
        while k < n
            invariant
                k <= n <= target.len(),
                n == prefix.len(),
                target@ == item@,
                prefix@ == self.prefix@,
                forall|m: int| 0 <= m < k ==> target@[m] == prefix@[m],
            decreases n - k,
        {
            if target[k] != prefix[k] {
                assert(target@.take(n as int)[k as int] != prefix@[k as int]);
                return false;
            }
            k += 1;
        }
        assert(target@.take(n as int) =~= prefix@);
        let rest_len = target.len() - n;
        assert(target@.skip(n as int).len() == rest_len);
        if rest_len == 0 {
            true
        } else {
            rest_len >= 2 && target[n] == ':' && target[n + 1] == ':'
        }
    }
}

/// Conversion into a predicate for targets used in the [`target()`] function.
pub trait IntoTargetPredicate {
    /// Predicate output of the conversion.
    type Predicate: ItemPredicate<String>;

    /// Result of the conversion.
    spec fn to_predicate(self) -> Self::Predicate;

    /// Performs the conversion.
    fn into_predicate(self) -> (r: Self::Predicate)
        ensures
            r == self.to_predicate(),
    ;
}

impl<'a> IntoTargetPredicate for &'a str {
    type Predicate = TargetStrPredicate<'a>;

    open spec fn to_predicate(self) -> TargetStrPredicate<'a> {
        TargetStrPredicate { prefix: self }
    }

    fn into_predicate(self) -> (r: TargetStrPredicate<'a>) {
        TargetStrPredicate { prefix: self }
    }
}

impl IntoTargetPredicate for StrEq {
    type Predicate = StrEq;

    open spec fn to_predicate(self) -> StrEq {
        self
    }

    fn into_predicate(self) -> (r: StrEq) {
        self
    }
}

/// Predicate for the target of a [`CapturedSpan`] or [`CapturedEvent`].
///
/// [`CapturedEvent`]: crate::capture::CapturedEvent
#[derive(Debug, Clone, Copy, PartialEq, Eq)]
pub struct TargetPredicate<P> {
    /// Predicate for the target.
    pub matches: P,
}

/// Creates a predicate for the target of a [`CapturedSpan`] or [`CapturedEvent`]. A string
/// argument is compared as per standard target filtering (see [`TargetStrPredicate`]).
///
/// [`CapturedEvent`]: crate::capture::CapturedEvent
pub fn target<P: IntoTargetPredicate>(matches: P) -> (r: TargetPredicate<P::Predicate>)
    ensures
        r.matches == matches.to_predicate(),
{
    TargetPredicate { matches: matches.into_predicate() }
}

impl<'a, P: ItemPredicate<String>, T: Captured<'a>> ItemPredicate<T> for TargetPredicate<P> {
    open spec fn holds(&self, item: &T) -> bool {
        self.matches.holds(&item.call_site().target)
    }

    fn eval(&self, item: &T) -> (r: bool) {
        self.matches.eval(&item.metadata().target)
    }
}

/// Predicate for the direct parent span of a [`CapturedSpan`] or [`CapturedEvent`]; it does
/// not hold for items without a captured parent.
///
/// [`CapturedEvent`]: crate::capture::CapturedEvent
#[derive(Debug, Clone, Copy, PartialEq, Eq)]
pub struct ParentPredicate<P> {
    /// Predicate for the parent span.
    pub matches: P,
}

/// Creates a predicate for the direct parent span of a [`CapturedSpan`] or [`CapturedEvent`].
///
/// [`CapturedEvent`]: crate::capture::CapturedEvent
pub fn parent<P>(matches: P) -> (r: ParentPredicate<P>)
    ensures
        r.matches == matches,
{
    ParentPredicate { matches }
}

impl<'a, P: ItemPredicate<CapturedSpan<'a>>, T: Captured<'a>> ItemPredicate<T> for ParentPredicate<
    P,
> {
    open spec fn holds(&self, item: &T) -> bool {
        match item.parent_handle() {
            Some(span) => self.matches.holds(&span),
            None => false,
        }
    }

    fn eval(&self, item: &T) -> (r: bool) {
        match item.parent() {
            Some(span) => self.matches.eval(&span),
            None => false,
        }
    }
}

/// Predicate for the ancestor spans of a [`CapturedSpan`] or [`CapturedEvent`]: holds iff
/// the wrapped predicate holds for any of the ancestors.
///
/// [`CapturedEvent`]: crate::capture::CapturedEvent
#[derive(Debug, Clone, Copy, PartialEq, Eq)]
pub struct AncestorPredicate<P> {
    /// Predicate for the ancestor spans.
    pub matches: P,
}

/// Creates a predicate for the ancestor spans of a [`CapturedSpan`] or [`CapturedEvent`].
///
/// [`CapturedEvent`]: crate::capture::CapturedEvent
pub fn ancestor<P>(matches: P) -> (r: AncestorPredicate<P>)
    ensures
        r.matches == matches,
{
    AncestorPredicate { matches }
}

impl<'a, P: ItemPredicate<CapturedSpan<'a>>, T: Captured<'a>> ItemPredicate<T> for AncestorPredicate<
    P,
> {
    open spec fn holds(&self, item: &T) -> bool {
        exists|k: int|
            0 <= k < item.ancestor_handles().len() && self.matches.holds(
                &#[trigger] item.ancestor_handles()[k],
            )
    }

    fn eval(&self, item: &T) -> (r: bool) {
        let ancestors = item.ancestors();
        let mut k: usize = 0;
        while k < ancestors.len()
            invariant
                k <= ancestors.len(),
                ancestors@ == item.ancestor_handles(),
                forall|m: int| 0 <= m < k ==> !self.matches.holds(&#[trigger] ancestors@[m]),
            decreases ancestors.len() - k,
        {
            if self.matches.eval(&ancestors[k]) {
                return true;
            }
            k += 1;
        }
        false
    }
}

/// Boolean "and" combinator for predicates.
#[derive(Debug, Clone, Copy, PartialEq, Eq)]
pub struct And<T, U> {
    /// First predicate.
    pub first: T,
    /// Second predicate.
    pub second: U,
}

impl<T, U> And<T, U> {
    /// Combines two predicates.
    pub fn new(first: T, second: U) -> (r: Self)
        ensures
            r.first == first,
            r.second == second,
    {
        And { first, second }
    }
}

impl<Item, T: ItemPredicate<Item>, U: ItemPredicate<Item>> ItemPredicate<Item> for And<T, U> {
    open spec fn holds(&self, item: &Item) -> bool {
        self.first.holds(item) && self.second.holds(item)
    }

    fn eval(&self, item: &Item) -> (r: bool) {
        self.first.eval(item) && self.second.eval(item)
    }
}

/// Boolean "or" combinator for predicates.
#[derive(Debug, Clone, Copy, PartialEq, Eq)]
pub struct Or<T, U> {
    /// First predicate.
    pub first: T,
    /// Second predicate.
    pub second: U,
}

impl<T, U> Or<T, U> {
    /// Combines two predicates.
    pub fn new(first: T, second: U) -> (r: Self)
        ensures
            r.first == first,
            r.second == second,
    {
        Or { first, second }
    }
}

impl<Item, T: ItemPredicate<Item>, U: ItemPredicate<Item>> ItemPredicate<Item> for Or<T, U> {
    open spec fn holds(&self, item: &Item) -> bool {
        self.first.holds(item) || self.second.holds(item)
    }

    fn eval(&self, item: &Item) -> (r: bool) {
        self.first.eval(item) || self.second.eval(item)
    }
}

/// Converts a predicate into an `Fn(&Item) -> bool` closure.
pub fn into_fn<Item, P: ItemPredicate<Item>>(predicate: P) -> (r: impl Fn(&Item) -> bool)
    ensures
        forall|item: &Item| #[trigger] r.requires((item,)),
        forall|item: &Item, b: bool| r.ensures((item,), b) ==> b == predicate.holds(item),
{
    move |item: &Item| -> (b: bool)
        ensures
            b == predicate.holds(item),
        { predicate.eval(item) }
}

/// Wrapper of a list of [`CapturedSpan`]s or [`CapturedEvent`]s used to find items matching
/// predicates.
///
/// [`CapturedEvent`]: crate::capture::CapturedEvent
#[derive(Debug, Clone)]
pub struct Scanner<T> {
    items: Vec<T>,
}

/// Wraps lists of items into a [`Scanner`].
pub trait ScannerExt<T>: Sized {
    /// Items of the list.
    spec fn items(&self) -> Seq<T>;

    /// Wraps this list into a [`Scanner`].
    fn scanner(self) -> (r: Scanner<T>)
        ensures
            r@ == self.items(),
    ;
}

impl<T> ScannerExt<T> for Vec<T> {
    open spec fn items(&self) -> Seq<T> {
        self@
    }

    fn scanner(self) -> (r: Scanner<T>) {
        Scanner::new(self)
    }
}

impl<T> View for Scanner<T> {
    type V = Seq<T>;

    closed spec fn view(&self) -> Seq<T> {
        self.items@
    }
}

impl<T> Scanner<T> {
    fn new(items: Vec<T>) -> (r: Self)
        ensures
            r@ == items@,
    {
        Scanner { items }
    }

    /// Index of the first item at or after `from` that the predicate holds for (or the
    /// number of items if there is none).
    fn find_from<P: ItemPredicate<T>>(&self, predicate: &P, from: usize) -> (r: usize)
        requires
            from <= self@.len(),
        ensures
            from <= r <= self@.len(),
            r < self@.len() ==> predicate.holds(&self@[r as int]),
            forall|j: int| from <= j < r ==> !predicate.holds(&#[trigger] self@[j]),
    {
        let mut k = from;
        while k < self.items.len()
            invariant
                from <= k <= self.items.len(),
                forall|j: int| from <= j < k ==> !predicate.holds(&#[trigger] self.items@[j]),
            decreases self.items.len() - k,
        {
            if predicate.eval(&self.items[k]) {
                return k;
            }
            k += 1;
        }
        k
    }

    /// Finds the single item matching the predicate, which must exist.
    pub fn single<P: ItemPredicate<T>>(self, predicate: &P) -> (r: T)
        requires
            exists|i: int| 0 <= i < self@.len() && predicate.holds(&#[trigger] self@[i]),
            forall|i: int, j: int|
                0 <= i < self@.len() && 0 <= j < self@.len() && predicate.holds(&#[trigger] self@[i])
                    && predicate.holds(&#[trigger] self@[j]) ==> i == j,
        ensures
            exists|i: int| 0 <= i < self@.len() && self@[i] == r && predicate.holds(&self@[i]),
    {
        let first = self.find_from(predicate, 0);
        let mut items = self.items;
        items.remove(first)
    }

    /// Finds the first item matching the predicate, which must exist.
    pub fn first<P: ItemPredicate<T>>(self, predicate: &P) -> (r: T)
        requires
            exists|i: int| 0 <= i < self@.len() && predicate.holds(&#[trigger] self@[i]),
        ensures
            exists|i: int|
                0 <= i < self@.len() && self@[i] == r && predicate.holds(&self@[i]) && forall|j: int|
                    0 <= j < i ==> !predicate.holds(&#[trigger] self@[j]),
    {
        let first = self.find_from(predicate, 0);
        let ghost items_view = self@;
        let mut items = self.items;
        let r = items.remove(first);
        assert(items_view[first as int] == r);
        r
    }

    /// Finds the last item matching the predicate, which must exist.
    pub fn last<P: ItemPredicate<T>>(self, predicate: &P) -> (r: T)
        requires
            exists|i: int| 0 <= i < self@.len() && predicate.holds(&#[trigger] self@[i]),
        ensures
            exists|i: int|
                0 <= i < self@.len() && self@[i] == r && predicate.holds(&self@[i]) && forall|j: int|
                    i < j < self@.len() ==> !predicate.holds(&#[trigger] self@[j]),
    {
        let ghost items_view = self@;
        let mut k = self.items.len();
        while k > 0
            invariant
                k <= self.items.len(),
                self@ == items_view,
                forall|j: int| k <= j < self.items.len() ==> !predicate.holds(&#[trigger] self.items@[j]),
            decreases k,
        {
            if predicate.eval(&self.items[k - 1]) {
                let mut items = self.items;
                let r = items.remove(k - 1);
                assert(items_view[k - 1] == r);
                return r;
            }
            k -= 1;
        }
        proof {
            let i = choose|i: int| 0 <= i < items_view.len() && predicate.holds(&#[trigger] items_view[i]);
            assert(!predicate.holds(&items_view[i]));
        }
        let mut items = self.items;
        items.remove(0)
    }

    /// Do all of the items match the predicate?
    pub fn all_match<P: ItemPredicate<T>>(&self, predicate: &P) -> (r: bool)
        ensures
            r == forall|i: int| 0 <= i < self@.len() ==> predicate.holds(&#[trigger] self@[i]),
    {
        let mut k: usize = 0;
        while k < self.items.len()
            invariant
                k <= self.items.len(),
                forall|i: int| 0 <= i < k ==> predicate.holds(&#[trigger] self.items@[i]),
            decreases self.items.len() - k,
        {
            if !predicate.eval(&self.items[k]) {
                assert(!predicate.holds(&self@[k as int]));
                return false;
            }
            k += 1;
        }
        assert forall|i: int| 0 <= i < self@.len() implies predicate.holds(&#[trigger] self@[i]) by {
            assert(predicate.holds(&self.items@[i]));
        }
        true
    }

    /// Does none of the items match the predicate?
    pub fn none_match<P: ItemPredicate<T>>(&self, predicate: &P) -> (r: bool)
        ensures
            r == forall|i: int| 0 <= i < self@.len() ==> !predicate.holds(&#[trigger] self@[i]),
    {
        let found = self.find_from(predicate, 0);
        if found < self.items.len() {
            assert(predicate.holds(&self@[found as int]));
            false
        } else {
            true
        }
    }

    /// Checks that all of the items match the predicate, which must be the case.
    pub fn all<P: ItemPredicate<T>>(self, predicate: &P)
        requires
            forall|i: int| 0 <= i < self@.len() ==> predicate.holds(&#[trigger] self@[i]),
    {
        assert forall|i: int| 0 <= i < self.items.len() implies predicate.holds(
            &#[trigger] self.items@[i],
        ) by {
            assert(predicate.holds(&self@[i]));
        }
        let mut k: usize = 0;
        while k < self.items.len()
            invariant
                k <= self.items.len(),
                forall|i: int| 0 <= i < self.items.len() ==> predicate.holds(&#[trigger] self.items@[i]),
            decreases self.items.len() - k,
        {
            let matches = predicate.eval(&self.items[k]);
            assert(matches);
            k += 1;
        }
    }

    /// Checks that none of the items match the predicate, which must be the case.
    pub fn none<P: ItemPredicate<T>>(self, predicate: &P)
        requires
            forall|i: int| 0 <= i < self@.len() ==> !predicate.holds(&#[trigger] self@[i]),
    {
        let found = self.find_from(predicate, 0);
        assert(found == self@.len());
    }
}

/// Whenever a parent predicate holds for an item, the ancestor predicate with the same span
/// predicate holds too: the parent is the first ancestor.
pub proof fn law_parent_implies_ancestor<'a, P: ItemPredicate<CapturedSpan<'a>>, T: Captured<'a>>(
    matches: P,
    item: T,
)
    requires
        (ParentPredicate { matches }).holds(&item),
    ensures
        (AncestorPredicate { matches }).holds(&item),
{
    item.lemma_parent_first_ancestor();
    let span = item.parent_handle()->0;
    assert(matches.holds(&item.ancestor_handles()[0]));
}

/// The "and" and "or" combinators evaluate as the boolean operators on their parts.
pub proof fn law_combinators<Item, T: ItemPredicate<Item>, U: ItemPredicate<Item>>(
    first: T,
    second: U,
    item: Item,
)
    ensures
        (And { first, second }).holds(&item) == (first.holds(&item) && second.holds(&item)),
        (Or { first, second }).holds(&item) == (first.holds(&item) || second.holds(&item)),
{
}

/// The ancestor predicate holds for an item exactly when the wrapped predicate holds for one
/// of the item's ancestors, at any depth: for its parent, for the root span that its chain of
/// ancestors ends in, or for any span between them.
pub proof fn law_ancestor_at_any_depth<'a, P: ItemPredicate<CapturedSpan<'a>>, T: Captured<'a>>(
    matches: P,
    item: T,
)
    ensures
        forall|k: int|
            0 <= k < item.ancestor_handles().len() && matches.holds(
                &#[trigger] item.ancestor_handles()[k],
            ) ==> (AncestorPredicate { matches }).holds(&item),
        (AncestorPredicate { matches }).holds(&item) ==> exists|k: int|
            0 <= k < item.ancestor_handles().len() && matches.holds(
                &#[trigger] item.ancestor_handles()[k],
            ),
        item.ancestor_handles().len() > 0 && matches.holds(&item.ancestor_handles().last())
            ==> (AncestorPredicate { matches }).holds(&item),
        item.parent_handle() is None ==> !(AncestorPredicate { matches }).holds(&item),
{
    item.lemma_parent_first_ancestor();
    if item.ancestor_handles().len() > 0 {
        let last = item.ancestor_handles().len() - 1;
        assert(item.ancestor_handles().last() == item.ancestor_handles()[last]);
    }
}

/// The parent predicate holds exactly when the item has ancestors and the wrapped predicate
/// holds for the nearest one, the direct parent.
pub proof fn law_parent_is_nearest_ancestor<'a, P: ItemPredicate<CapturedSpan<'a>>, T: Captured<'a>>(
    matches: P,
    item: T,
)
    ensures
        (ParentPredicate { matches }).holds(&item) <==> (item.ancestor_handles().len() > 0
            && matches.holds(&item.ancestor_handles()[0])),
        item.parent_handle() matches Some(span) ==> ((ParentPredicate { matches }).holds(&item)
            <==> matches.holds(&span)),
{
    item.lemma_parent_first_ancestor();
}

/// Level filters order the levels from `Error` (the least verbose) to `Trace` (the most
/// verbose): a filter matches its own level and every less verbose one, and no more verbose
/// one; a filter that is turned off matches nothing. An exact level predicate matches its
/// level only.
pub proof fn law_level_filters(a: TracingLevel, b: TracingLevel, c: TracingLevel)
    ensures
        (LevelAtMost { level: Some(a) }).holds(&a),
        (LevelAtMost { level: Some(a) }).holds(&b) || (LevelAtMost { level: Some(b) }).holds(&a),
        (LevelAtMost { level: Some(a) }).holds(&b) && (LevelAtMost { level: Some(b) }).holds(&a)
            ==> a == b,
        (LevelAtMost { level: Some(a) }).holds(&b) && (LevelAtMost { level: Some(b) }).holds(&c)
            ==> (LevelAtMost { level: Some(a) }).holds(&c),
        (LevelAtMost { level: Some(a) }).holds(&TracingLevel::Error),
        (LevelAtMost { level: Some(TracingLevel::Trace) }).holds(&a),
        (LevelAtMost { level: Some(TracingLevel::Warn) }).holds(&TracingLevel::Error)
            && !(LevelAtMost { level: Some(TracingLevel::Error) }).holds(&TracingLevel::Warn),
        (LevelAtMost { level: Some(TracingLevel::Info) }).holds(&TracingLevel::Warn)
            && !(LevelAtMost { level: Some(TracingLevel::Warn) }).holds(&TracingLevel::Info),
        (LevelAtMost { level: Some(TracingLevel::Debug) }).holds(&TracingLevel::Info)
            && !(LevelAtMost { level: Some(TracingLevel::Info) }).holds(&TracingLevel::Debug),
        (LevelAtMost { level: Some(TracingLevel::Trace) }).holds(&TracingLevel::Debug)
            && !(LevelAtMost { level: Some(TracingLevel::Debug) }).holds(&TracingLevel::Trace),
        !(LevelAtMost { level: None }).holds(&a),
        (LevelEq { level: a }).holds(&b) <==> a == b,
{
}

/// A target prefix matches the target equal to it and the targets of its submodules (the
/// prefix followed by `::`), but no other target starting with it (such as `tracing_capture`
/// for the prefix `tracing`), and no target that does not start with it.
pub proof fn law_target_prefix(prefix: Seq<char>, rest: Seq<char>, c: char, target: Seq<char>)
    ensures
        target_matches(prefix, prefix),
        target_matches(prefix + seq![':', ':'] + rest, prefix),
        c != ':' ==> !target_matches(prefix + seq![c] + rest, prefix),
        !target_matches(prefix + seq![':'], prefix),
        target_matches(target, prefix) ==> target.len() >= prefix.len() && target.take(
            prefix.len() as int,
        ) == prefix,
{
    assert(prefix.take(prefix.len() as int) =~= prefix);
    assert(prefix.skip(prefix.len() as int) =~= Seq::<char>::empty());
    let sub = prefix + seq![':', ':'] + rest;
    assert(sub.take(prefix.len() as int) =~= prefix);
    assert(sub.skip(prefix.len() as int) =~= seq![':', ':'] + rest);
    let other = prefix + seq![c] + rest;
    assert(other.skip(prefix.len() as int) =~= seq![c] + rest);
    let colon = prefix + seq![':'];
    assert(colon.skip(prefix.len() as int) =~= seq![':']);
}

} // verus!
