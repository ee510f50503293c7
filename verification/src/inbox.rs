use vstd::prelude::*;
use vstd::utf8::encode_utf8;

verus! {

/// Whether `pattern` stands in `s` at the place `at`.
pub open spec fn stands_at<A>(s: Seq<A>, pattern: Seq<A>, at: int) -> bool {
    0 <= at && at + pattern.len() <= s.len() && s.subrange(at, at + pattern.len()) == pattern
}

/// Whether `pattern` stands somewhere in `s`.
pub open spec fn occurs<A>(s: Seq<A>, pattern: Seq<A>) -> bool {
    exists|at: int| stands_at(s, pattern, at)
}

/// `s` with `to` in place of `from` wherever `from` stands, read from the left
/// and never looking back into what was replaced. An empty `from` stands
/// nowhere.
pub open spec fn replaced<A>(s: Seq<A>, from: Seq<A>, to: Seq<A>) -> Seq<A>
    decreases s.len(),
{
    if from.len() == 0 || s.len() < from.len() {
        s
    } else if stands_at(s, from, 0) {
        to + replaced(s.skip(from.len() as int), from, to)
    } else {
        seq![s[0]] + replaced(s.skip(1), from, to)
    }
}

/// Whether `c` is one of the ten digits.
pub open spec fn is_digit(c: char) -> bool {
    '0' <= c <= '9'
}

/// The number that the digits stand for, read as a decimal numeral.
pub open spec fn decimal(digits: Seq<char>) -> nat
    decreases digits.len(),
{
    if digits.len() == 0 {
        0
    } else {
        decimal(digits.drop_last()) * 10 + (digits.last() as nat - '0' as nat) as nat
    }
}

/// `s` without the plus sign that may stand in front of it.
pub open spec fn unsigned(s: Seq<char>) -> Seq<char> {
    if s.len() > 0 && s[0] == '+' {
        s.skip(1)
    } else {
        s
    }
}

/// The number that `s` stands for: one or more digits, with or without a plus
/// sign in front, and a value that a `usize` holds. `None` for everything
/// else.
pub open spec fn number(s: Seq<char>) -> Option<usize> {
    let digits = unsigned(s);
    if digits.len() > 0 && (forall|i: int| 0 <= i < digits.len() ==> is_digit(digits[i]))
        && decimal(digits) <= usize::MAX {
        Some(decimal(digits) as usize)
    } else {
        None
    }
}

/// Whether `s` is two numbers with a hyphen between them, the hyphen at `at`.
pub open spec fn splits_at(s: Seq<char>, at: int) -> bool {
    &&& 0 <= at < s.len()
    &&& s[at] == '-'
    &&& number(s.take(at)) is Some
    &&& number(s.skip(at + 1)) is Some
}

/// What is left of a file's name once the words that mark the client and the
/// transaction are taken out: the first is dropped, the second leaves its
/// last hyphen.
pub open spec fn stripped_name(name: Seq<char>) -> Seq<char> {
    replaced(replaced(name, "client-"@, Seq::empty()), "-transaction-"@, seq!['-'])
}

/// The client and the transaction that a file's name stands for.
///
/// The name holds both marking words, and what is left of it without them is
/// the client's number, a hyphen, and the transaction's number. `None` for
/// every other name.
pub open spec fn named_transaction(name: Seq<char>) -> Option<(usize, usize)> {
    let stripped = stripped_name(name);
    if occurs(name, "client-"@) && occurs(name, "-transaction-"@) && exists|at: int|
        splits_at(stripped, at) {
        let at = choose|at: int| splits_at(stripped, at);
        Some((number(stripped.take(at)).unwrap(), number(stripped.skip(at + 1)).unwrap()))
    } else {
        None
    }
}

/// A longer numeral is worth at least as much as what it starts with.
proof fn lemma_decimal_grows(digits: Seq<char>, n: int)
    requires
        0 <= n <= digits.len(),
        forall|i: int| 0 <= i < digits.len() ==> is_digit(digits[i]),
    ensures
        decimal(digits.take(n)) <= decimal(digits),
    decreases digits.len() - n,
{
    if n < digits.len() {
        lemma_decimal_grows(digits, n + 1);
        assert(digits.take(n + 1).drop_last() =~= digits.take(n));
    } else {
        assert(digits.take(n) =~= digits);
    }
}

/// A number holds no hyphen.
proof fn lemma_number_has_no_hyphen(s: Seq<char>, at: int)
    requires
        0 <= at < s.len(),
        s[at] == '-',
    ensures
        number(s) is None,
{
    let digits = unsigned(s);
    if s[0] == '+' {
        assert(!is_digit(digits[at - 1]));
    }
}

/// Two numbers with a hyphen between them split at one place only.
pub proof fn lemma_splits_once(s: Seq<char>, at: int, other: int)
    requires
        splits_at(s, at),
        splits_at(s, other),
    ensures
        at == other,
{
    if at < other {
        lemma_number_has_no_hyphen(s.take(other), at);
    } else if other < at {
        lemma_number_has_no_hyphen(s.take(at), other);
    }
}

/// The characters of `text`, one by one.
pub fn chars_of(text: &str) -> (r: Vec<char>)
    ensures
        r@ == text@,
{
    let mut out: Vec<char> = Vec::new();
    for c in it: text.chars()
        invariant
            it.seq() == text@,
            out@ == text@.subrange(0, it.index() as int),
    {
        out.push(c);
    }
    out
}

/// Whether `pattern` stands in `s` at the place `at`.
pub fn stands_in_at(s: &Vec<char>, pattern: &Vec<char>, at: usize) -> (r: bool)
    ensures
        r == stands_at(s@, pattern@, at as int),
{
    if pattern.len() > s.len() || at > s.len() - pattern.len() {
        return false;
    }
    let mut k: usize = 0;
    while k < pattern.len()
        invariant
            k <= pattern.len(),
            at + pattern.len() <= s.len(),
            forall|j: int| 0 <= j < k ==> s@[at + j] == pattern@[j],
        decreases pattern.len() - k,
    {
        if s[at + k] != pattern[k] {
            return false;
        }
        k += 1;
    }
    assert(s@.subrange(at as int, at + pattern.len()) =~= pattern@);
    true
}

/// Whether `pattern` stands somewhere in `s`.
pub fn occurs_in(s: &Vec<char>, pattern: &Vec<char>) -> (r: bool)
    ensures
        r == occurs(s@, pattern@),
{
    if pattern.len() > s.len() {
        return false;
    }
    let last = s.len() - pattern.len();
    let mut at: usize = 0;
    while at < last
        invariant
            last == s.len() - pattern.len(),
            at <= last,
            forall|j: int| 0 <= j < at ==> !stands_at(s@, pattern@, j),
        decreases last - at,
    {
        if stands_in_at(s, pattern, at) {
            return true;
        }
        at += 1;
    }
    stands_in_at(s, pattern, last)
}

/// `s` with `to` in place of `from` wherever `from` stands.
pub fn replace_in(s: &Vec<char>, from: &Vec<char>, to: &Vec<char>) -> (r: Vec<char>)
    ensures
        r@ == replaced(s@, from@, to@),
{
    let mut out: Vec<char> = Vec::new();
    let mut at: usize = 0;
    assert(s@.skip(0) =~= s@);
    while at < s.len()
        invariant
            at <= s.len(),
            out@ + replaced(s@.skip(at as int), from@, to@) == replaced(s@, from@, to@),
        decreases s.len() - at,
    {
        let ghost rest = s@.skip(at as int);
        let ghost before = out@;
        if from.len() > 0 && stands_in_at(s, from, at) {
            assert(rest.subrange(0, from@.len() as int) =~= s@.subrange(
                at as int,
                at + from@.len(),
            ));
            assert(rest.skip(from@.len() as int) =~= s@.skip(at + from@.len()));
            let mut k: usize = 0;
            while k < to.len()
                invariant
                    k <= to.len(),
                    out@ == before + to@.take(k as int),
                decreases to.len() - k,
            {
                out.push(to[k]);
                k += 1;
            }
            at += from.len();
        } else {
            proof {
                if from@.len() > 0 && rest.len() >= from@.len() {
                    assert(rest.subrange(0, from@.len() as int) =~= s@.subrange(
                        at as int,
                        at + from@.len(),
                    ));
                }
                assert(rest.skip(1) =~= s@.skip(at + 1));
            }
            out.push(s[at]);
            at += 1;
        }
    }
    out
}

/// The number that `text` stands for, `None` where it stands for none.
pub fn number_of(text: &str) -> (r: Option<usize>)
    ensures
        r == number(text@),
{
    let chars = chars_of(text);
    assert(chars@.subrange(0, chars@.len() as int) =~= chars@);
    number_in(&chars, 0, chars.len())
}

/// The number that the characters of `s` from `from` up to `to` stand for.
fn number_in(s: &Vec<char>, from: usize, to: usize) -> (r: Option<usize>)
    requires
        from <= to <= s.len(),
    ensures
        r == number(s@.subrange(from as int, to as int)),
{
    let ghost whole = s@.subrange(from as int, to as int);
    let mut start: usize = from;
    if start < to && s[start] == '+' {
        start += 1;
    }
    let ghost digits = s@.subrange(start as int, to as int);
    if start == to {
        return None;
    }
    let mut value: usize = 0;
    let mut k: usize = start;
    while k < to
        invariant
            start <= k <= to <= s.len(),
            digits == s@.subrange(start as int, to as int),
            digits == unsigned(whole),
            whole == s@.subrange(from as int, to as int),
            forall|j: int| 0 <= j < k - start ==> is_digit(digits[j]),
            value == decimal(digits.take(k - start)),
        decreases to - k,
    {
        let c = s[k];
        assert(digits[k - start] == c);
        if c < '0' || c > '9' {
            return None;
        }
        let digit = (c as u32 - '0' as u32) as usize;
        assert(digits.take(k - start + 1).drop_last() =~= digits.take(k - start));
        if value > (usize::MAX - digit) / 10 {
            proof {
                if forall|i: int| 0 <= i < digits.len() ==> is_digit(digits[i]) {
                    lemma_decimal_grows(digits, k - start + 1);
                }
            }
            return None;
        }
        value = value * 10 + digit;
        k += 1;
    }
    assert(digits.take(digits.len() as int) =~= digits);
    Some(value)
}

/// The client and the transaction that a file's name stands for, `None`
/// where the name is not that of a message left for the server.
pub fn transaction_of_file_name(name: &str) -> (r: Option<(usize, usize)>)
    ensures
        r == named_transaction(name@),
{
    let chars = chars_of(name);
    let client_mark = chars_of("client-");
    let transaction_mark = chars_of("-transaction-");
    if !occurs_in(&chars, &client_mark) || !occurs_in(&chars, &transaction_mark) {
        return None;
    }
    let nothing: Vec<char> = Vec::new();
    let mut hyphen: Vec<char> = Vec::new();
    hyphen.push('-');
    let without_client = replace_in(&chars, &client_mark, &nothing);
    let stripped = replace_in(&without_client, &transaction_mark, &hyphen);
    let mut at: usize = 0;
    while at < stripped.len() && stripped[at] != '-'
        invariant
            at <= stripped.len(),
            forall|j: int| 0 <= j < at ==> stripped@[j] != '-',
        decreases stripped.len() - at,
    {
        at += 1;
    }
    if at == stripped.len() {
        return None;
    }
    match (number_in(&stripped, 0, at), number_in(&stripped, at + 1, stripped.len())) {
        (Some(client), Some(transaction)) => {
            proof {
                assert(splits_at(stripped@, at as int));
                let chosen = choose|j: int| splits_at(stripped@, j);
                lemma_splits_once(stripped@, at as int, chosen);
            }
            Some((client, transaction))
        },
        _ => {
            assert forall|j: int| !splits_at(stripped@, j) by {
                if splits_at(stripped@, j) && j > at {
                    lemma_number_has_no_hyphen(stripped@.take(j), at as int);
                }
            }
            None
        },
    }
}

/// Whether an entry of the directory is a message to read, and if so of
/// which client and transaction: it is a regular file, its name can be read as
/// text, and the name is that of a message. `name` is `None` for a name that
/// is no text.
pub fn message_file(is_file: bool, name: &Option<String>) -> (r: Option<(usize, usize)>)
    ensures
        r == (if is_file && name is Some {
            named_transaction(name.unwrap()@)
        } else {
            None
        }),
{
    match name {
        Some(name) => {
            if is_file {
                transaction_of_file_name(name.as_str())
            } else {
                None
            }
        },
        None => None,
    }
}

/// The message that a file gave, if it counts: its contents could be read,
/// and the file could be removed afterwards. A file that stays is left for a
/// later pass, and what was read of it is dropped.
pub fn message_read(
    client: usize,
    transaction: usize,
    contents: Option<String>,
    removed: bool,
) -> (r: Option<(usize, usize, String)>)
    ensures
        r == (if contents is Some && removed {
            Some((client, transaction, contents.unwrap()))
        } else {
            None
        }),
{
    match contents {
        Some(contents) => {
            if removed {
                Some((client, transaction, contents))
            } else {
                None
            }
        },
        None => None,
    }
}

/// Whether the message `a` is replayed before the message `b` whatever the
/// order in which their files were found: it is of a client with a lower
/// number, or of the same client and an earlier transaction.
pub open spec fn comes_before(a: (usize, usize, Seq<char>), b: (usize, usize, Seq<char>)) -> bool {
    a.0 < b.0 || (a.0 == b.0 && a.1 < b.1)
}

/// `sorted` with `x` put in front of the first message that does not come
/// before it.
pub open spec fn placed(x: (usize, usize, Seq<char>), sorted: Seq<(usize, usize, Seq<char>)>) -> Seq<
    (usize, usize, Seq<char>),
>
    decreases sorted.len(),
{
    if sorted.len() == 0 {
        seq![x]
    } else if comes_before(sorted.first(), x) {
        seq![sorted.first()] + placed(x, sorted.drop_first())
    } else {
        seq![x] + sorted
    }
}

/// The messages in the order in which they are replayed: by client, then by
/// transaction, and those of one client and transaction in the order in
/// which they were found.
pub open spec fn replay_order(found: Seq<(usize, usize, Seq<char>)>) -> Seq<
    (usize, usize, Seq<char>),
>
    decreases found.len(),
{
    if found.len() == 0 {
        Seq::empty()
    } else {
        placed(found.first(), replay_order(found.drop_first()))
    }
}

/// The number of bytes that `text` takes as a file's contents.
pub open spec fn byte_len(text: Seq<char>) -> nat {
    encode_utf8(text).len()
}

/// The number of bytes that the messages take together.
pub open spec fn byte_total(found: Seq<(usize, usize, Seq<char>)>) -> nat
    decreases found.len(),
{
    if found.len() == 0 {
        0
    } else {
        byte_total(found.drop_last()) + byte_len(found.last().2)
    }
}

/// `total`, or the largest `usize` where it is beyond that.
pub open spec fn saturated(total: nat) -> usize {
    if total <= usize::MAX {
        total as usize
    } else {
        usize::MAX
    }
}

/// What is handed on from the messages found: each with its client, in the
/// order of replay, with the end mark back in place of what stood for it.
pub open spec fn replayed(
    found: Seq<(usize, usize, Seq<char>)>,
    escape: Seq<char>,
    end_mark: Seq<char>,
) -> Seq<(usize, Seq<char>)> {
    replay_order(found).map_values(
        |t: (usize, usize, Seq<char>)| (t.0, replaced(t.2, escape, end_mark)),
    )
}

/// Putting `x` into `sorted` is inserting it at the first place whose message
/// does not come before it.
proof fn lemma_placed_at(
    x: (usize, usize, Seq<char>),
    sorted: Seq<(usize, usize, Seq<char>)>,
    at: int,
)
    requires
        0 <= at <= sorted.len(),
        forall|j: int| 0 <= j < at ==> comes_before(sorted[j], x),
        at < sorted.len() ==> !comes_before(sorted[at], x),
    ensures
        placed(x, sorted) == sorted.insert(at, x),
    decreases at,
{
    if at > 0 {
        let rest = sorted.drop_first();
        assert forall|j: int| 0 <= j < at - 1 implies comes_before(rest[j], x) by {}
        lemma_placed_at(x, rest, at - 1);
    }
}

/// In the order of replay no message stands behind one that it comes before.
pub proof fn lemma_replay_order_ascends(found: Seq<(usize, usize, Seq<char>)>)
    ensures
        forall|i: int, j: int|
            0 <= i < j < replay_order(found).len() ==> !comes_before(
                replay_order(found)[j],
                replay_order(found)[i],
            ),
    decreases found.len(),
{
    if found.len() > 0 {
        lemma_replay_order_ascends(found.drop_first());
        lemma_placed_ascends(found.first(), replay_order(found.drop_first()));
    }
}

/// Putting a message into an ascending sequence leaves it ascending.
proof fn lemma_placed_ascends(x: (usize, usize, Seq<char>), sorted: Seq<(usize, usize, Seq<char>)>)
    requires
        forall|i: int, j: int| 0 <= i < j < sorted.len() ==> !comes_before(sorted[j], sorted[i]),
    ensures
        forall|i: int, j: int|
            0 <= i < j < placed(x, sorted).len() ==> !comes_before(
                placed(x, sorted)[j],
                placed(x, sorted)[i],
            ),
        placed(x, sorted).len() == sorted.len() + 1,
        forall|i: int|
            0 <= i < placed(x, sorted).len() ==> placed(x, sorted)[i] == x || sorted.contains(
                #[trigger] placed(x, sorted)[i],
            ),
    decreases sorted.len(),
{
    let result = placed(x, sorted);
    if sorted.len() > 0 && comes_before(sorted.first(), x) {
        let rest = sorted.drop_first();
        let inner = placed(x, rest);
        assert forall|i: int, j: int| 0 <= i < j < rest.len() implies !comes_before(
            rest[j],
            rest[i],
        ) by {}
        lemma_placed_ascends(x, rest);
        assert forall|i: int| 0 <= i < result.len() implies result[i] == x || sorted.contains(
            #[trigger] result[i],
        ) by {
            if i > 0 && inner[i - 1] != x {
                let k = choose|k: int| 0 <= k < rest.len() && rest[k] == inner[i - 1];
                assert(sorted[k + 1] == result[i]);
            }
        }
        assert forall|i: int, j: int| 0 <= i < j < result.len() implies !comes_before(
            result[j],
            result[i],
        ) by {
            if i == 0 && inner[j - 1] != x {
                let k = choose|k: int| 0 <= k < rest.len() && rest[k] == inner[j - 1];
                assert(!comes_before(sorted[k + 1], sorted[0]));
            }
        }
    } else if sorted.len() > 0 {
        assert forall|i: int| 0 <= i < result.len() implies result[i] == x || sorted.contains(
            #[trigger] result[i],
        ) by {
            if i > 0 {
                assert(sorted[i - 1] == result[i]);
            }
        }
        assert forall|i: int, j: int| 0 <= i < j < result.len() implies !comes_before(
            result[j],
            result[i],
        ) by {
            if i == 0 {
                assert(!comes_before(sorted[j - 1], sorted[0]) || j - 1 == 0);
            }
        }
    }
}

/// The order of replay holds the messages found, each as often as it was
/// found.
pub proof fn lemma_replay_order_keeps_all(found: Seq<(usize, usize, Seq<char>)>)
    ensures
        replay_order(found).to_multiset() == found.to_multiset(),
        replay_order(found).len() == found.len(),
    decreases found.len(),
{
    if found.len() > 0 {
        let rest = found.drop_first();
        lemma_replay_order_keeps_all(rest);
        lemma_placed_keeps_all(found.first(), replay_order(rest));
        assert(found =~= rest.insert(0, found.first()));
        vstd::seq_lib::to_multiset_insert(rest, 0, found.first());
    } else {
        assert(found =~= Seq::empty());
    }
}

/// Putting a message into a sequence adds it once and leaves the others.
proof fn lemma_placed_keeps_all(x: (usize, usize, Seq<char>), sorted: Seq<(usize, usize, Seq<char>)>)
    ensures
        placed(x, sorted).to_multiset() == sorted.to_multiset().insert(x),
        placed(x, sorted).len() == sorted.len() + 1,
    decreases sorted.len(),
{
    broadcast use vstd::multiset::group_multiset_axioms;

    if sorted.len() > 0 && comes_before(sorted.first(), x) {
        let rest = sorted.drop_first();
        let inner = placed(x, rest);
        lemma_placed_keeps_all(x, rest);
        assert(placed(x, sorted) =~= inner.insert(0, sorted.first()));
        vstd::seq_lib::to_multiset_insert(inner, 0, sorted.first());
        assert(sorted =~= rest.insert(0, sorted.first()));
        vstd::seq_lib::to_multiset_insert(rest, 0, sorted.first());
    } else {
        assert(placed(x, sorted) =~= sorted.insert(0, x));
        vstd::seq_lib::to_multiset_insert(sorted, 0, x);
    }
}

/// The messages of `found` that are of the client `client` and the
/// transaction `transaction`, in the order in which they stand.
pub open spec fn of_transaction(
    found: Seq<(usize, usize, Seq<char>)>,
    client: usize,
    transaction: usize,
) -> Seq<(usize, usize, Seq<char>)>
    decreases found.len(),
{
    if found.len() == 0 {
        Seq::empty()
    } else if found.first().0 == client && found.first().1 == transaction {
        seq![found.first()] + of_transaction(found.drop_first(), client, transaction)
    } else {
        of_transaction(found.drop_first(), client, transaction)
    }
}

/// Putting a message into a sequence puts it in front of those of its own
/// client and transaction and leaves the order of the others.
proof fn lemma_placed_in_front_of_equals(
    x: (usize, usize, Seq<char>),
    sorted: Seq<(usize, usize, Seq<char>)>,
    client: usize,
    transaction: usize,
)
    ensures
        of_transaction(placed(x, sorted), client, transaction) == (if x.0 == client && x.1
            == transaction {
            seq![x] + of_transaction(sorted, client, transaction)
        } else {
            of_transaction(sorted, client, transaction)
        }),
    decreases sorted.len(),
{
    if sorted.len() > 0 && comes_before(sorted.first(), x) {
        let rest = sorted.drop_first();
        lemma_placed_in_front_of_equals(x, rest, client, transaction);
        let result = placed(x, sorted);
        assert(result.drop_first() =~= placed(x, rest));
    } else {
        let result = placed(x, sorted);
        assert(result.drop_first() =~= sorted);
    }
}

/// The order of replay keeps the messages of one client and transaction in
/// the order in which they were found.
pub proof fn lemma_replay_order_is_stable(
    found: Seq<(usize, usize, Seq<char>)>,
    client: usize,
    transaction: usize,
)
    ensures
        of_transaction(replay_order(found), client, transaction) == of_transaction(
            found,
            client,
            transaction,
        ),
    decreases found.len(),
{
    if found.len() > 0 {
        lemma_replay_order_is_stable(found.drop_first(), client, transaction);
        lemma_placed_in_front_of_equals(
            found.first(),
            replay_order(found.drop_first()),
            client,
            transaction,
        );
    }
}

/// The number of bytes that `text` takes.
pub fn bytes_in(text: &str) -> (r: usize)
    ensures
        r == byte_len(text@),
{
    text.as_bytes().len()
}

/// The number of bytes that the messages take together, or the largest
/// `usize` where they take more.
pub fn bytes_read(found: &Vec<(usize, usize, String)>) -> (r: usize)
    ensures
        r == saturated(byte_total(found.deep_view())),
{
    let ghost all = found.deep_view();
    let mut total: usize = 0;
    let mut i: usize = 0;
    while i < found.len()
        invariant
            i <= found.len(),
            all == found.deep_view(),
            total == saturated(byte_total(all.take(i as int))),
        decreases found.len() - i,
    {
        assert(all.take(i + 1).drop_last() =~= all.take(i as int));
        let n = bytes_in(found[i].2.as_str());
        total = if total > usize::MAX - n {
            usize::MAX
        } else {
            total + n
        };
        i += 1;
    }
    assert(all.take(all.len() as int) =~= all);
    total
}

/// Whether the message `a` is replayed before the message `b` wherever their
/// files were found.
fn is_before(a: &(usize, usize, String), b: &(usize, usize, String)) -> (r: bool)
    ensures
        r == comes_before(a.deep_view(), b.deep_view()),
{
    a.0 < b.0 || (a.0 == b.0 && a.1 < b.1)
}

/// The messages in the order in which they are replayed.
pub fn order_transactions(found: Vec<(usize, usize, String)>) -> (r: Vec<(usize, usize, String)>)
    ensures
        r.deep_view() == replay_order(found.deep_view()),
{
    let ghost all = found.deep_view();
    let mut rest = found;
    let mut sorted: Vec<(usize, usize, String)> = Vec::new();
    while rest.len() > 0
        invariant
            rest.len() <= all.len(),
            rest.deep_view() == all.take(rest.len() as int),
            sorted.deep_view() == replay_order(all.skip(rest.len() as int)),
        decreases rest.len(),
    {
        let ghost n = rest.len() as int;
        let ghost before = sorted.deep_view();
        let ghost earlier = rest.deep_view();
        let x = rest.pop().unwrap();
        assert(x.deep_view() == all[n - 1]) by {
            assert(earlier[n - 1] == all[n - 1]);
        }
        assert(all.skip(n - 1).drop_first() =~= all.skip(n));
        let mut at: usize = 0;
        while at < sorted.len() && is_before(&sorted[at], &x)
            invariant
                at <= sorted.len(),
                before == sorted.deep_view(),
                forall|j: int| 0 <= j < at ==> comes_before(before[j], x.deep_view()),
            decreases sorted.len() - at,
        {
            at += 1;
        }
        proof {
            lemma_placed_at(x.deep_view(), before, at as int);
        }
        sorted.insert(at, x);
    }
    sorted
}

/// `String::push`, which puts one character behind those that the text holds.
#[verifier::external_body]
fn push_char(text: &mut String, c: char)
    ensures
        final(text)@ == old(text)@.push(c),
{
    text.push(c)
}

/// The text made of `chars`.
pub fn text_of(chars: &Vec<char>) -> (r: String)
    ensures
        r@ == chars@,
{
    let mut text = String::new();
    let mut i: usize = 0;
    while i < chars.len()
        invariant
            i <= chars.len(),
            text@ == chars@.take(i as int),
        decreases chars.len() - i,
    {
        push_char(&mut text, chars[i]);
        i += 1;
    }
    text
}

/// `contents` with the end mark back wherever `escape` stands for it. An empty
/// `escape` stands for nothing.
pub fn unescape(contents: &str, escape: &str, end_mark: &str) -> (r: String)
    ensures
        r@ == replaced(contents@, escape@, end_mark@),
{
    text_of(&replace_in(&chars_of(contents), &chars_of(escape), &chars_of(end_mark)))
}

/// What is handed on from the messages found: each with its client, in the
/// order of replay, with the end mark back in place of what stood for it.
pub fn replay(found: Vec<(usize, usize, String)>, escape: &str, end_mark: &str) -> (r: Vec<
    (usize, String),
>)
    ensures
        r.deep_view() == replayed(found.deep_view(), escape@, end_mark@),
{
    let sorted = order_transactions(found);
    let ghost all = sorted.deep_view();
    let ghost target = replayed(found.deep_view(), escape@, end_mark@);
    let mut out: Vec<(usize, String)> = Vec::new();
    for t in it: sorted
        invariant
            it.seq() == sorted@,
            all == sorted.deep_view(),
            all == replay_order(found.deep_view()),
            target == replayed(found.deep_view(), escape@, end_mark@),
            out.deep_view() == target.take(it.index() as int),
    {
        let ghost before = out.deep_view();
        let text = unescape(t.2.as_str(), escape, end_mark);
        out.push((t.0, text));
        assert(out.deep_view() =~= before.push(target[it.index() as int]));
    }
    out
}

} // verus!
