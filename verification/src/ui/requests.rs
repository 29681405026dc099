//! Requests that wait for the window that will serve them.

use vstd::prelude::*;

use crate::text::same_text;

verus! {

/// Requests that wait, each under the label of its window.
///
/// A window that has just been built does not listen yet, so a request is parked
/// and the window takes its own once it does. There is one place per label, so
/// that windows opening at once do not take each other's.
#[derive(Debug)]
pub struct PendingRequests<V> {
    waiting: Vec<(String, V)>,
    /// How many requests were numbered, modulo two to the 64th.
    numbered: u64,
}

/// Where `label` stands in `entries`.
pub open spec fn parked_at<V>(entries: Seq<(String, V)>, label: Seq<char>, i: int) -> bool {
    0 <= i < entries.len() && entries[i].0@ == label
}

/// The entries of a list by label.
pub open spec fn parked<V>(entries: Seq<(String, V)>) -> Map<Seq<char>, V> {
    Map::new(
        |label: Seq<char>| exists|i: int| parked_at(entries, label, i),
        |label: Seq<char>| entries[choose|i: int| parked_at(entries, label, i)].1,
    )
}

/// Whether no label occurs twice.
pub open spec fn labels_differ<V>(entries: Seq<(String, V)>) -> bool {
    forall|i: int, j: int|
        #![trigger entries[i], entries[j]]
        0 <= i < j < entries.len() ==> entries[i].0@ != entries[j].0@
}

/// The number after `n`; past the largest comes zero.
pub open spec fn next_number(n: u64) -> u64 {
    if n == u64::MAX {
        0
    } else {
        (n + 1) as u64
    }
}

/// The number given last after `k` more were given.
pub open spec fn number_after(last: u64, k: nat) -> u64
    decreases k,
{
    if k == 0 {
        last
    } else {
        next_number(number_after(last, (k - 1) as nat))
    }
}

/// Until they run out, numbers count on.
proof fn lemma_numbers_count(last: u64, k: nat)
    requires
        last + k <= u64::MAX,
    ensures
        number_after(last, k) == last + k,
    decreases k,
{
    if k > 0 {
        lemma_numbers_count(last, (k - 1) as nat);
    }
}

/// Of all requests since the start, the first bears the number one, and a later
/// one bears a larger number than an earlier one, until the numbers run out.
pub proof fn law_later_requests_bear_larger_numbers(earlier: nat, later: nat)
    requires
        1 <= earlier < later <= u64::MAX,
    ensures
        number_after(0, 1) == 1,
        number_after(0, earlier) < number_after(0, later),
{
    lemma_numbers_count(0, 1);
    lemma_numbers_count(0, earlier);
    lemma_numbers_count(0, later);
}

/// The name of the field that bears a request's number.
pub open spec fn number_field() -> Seq<char> {
    "seq"@
}

/// Whether a field is another than the one that bears the number.
pub open spec fn is_plain_field<V>() -> spec_fn((String, V)) -> bool {
    |field: (String, V)| field.0@ != number_field()
}

/// A request to show details: the fields it came with, and its number, which
/// stands in place of a field of that name.
#[derive(Debug)]
pub struct Request<V> {
    pub number: u64,
    pub fields: Vec<(String, V)>,
}

/// The fields of a request that came with `payload`, which is `None` where it is
/// no list of fields.
pub open spec fn plain_fields<V>(payload: Option<Seq<(String, V)>>) -> Seq<(String, V)> {
    match payload {
        Some(fields) => fields.filter(is_plain_field()),
        None => Seq::empty(),
    }
}

/// The fields of a list, where there is one.
pub open spec fn field_list<V>(payload: Option<Vec<(String, V)>>) -> Option<Seq<(String, V)>> {
    match payload {
        Some(fields) => Some(fields@),
        None => None,
    }
}

impl<V> Request<V> {
    /// Whether this is the request with `number` that came with `payload`.
    pub open spec fn stamps(self, number: u64, payload: Option<Seq<(String, V)>>) -> bool {
        self.number == number && self.fields@ == plain_fields(payload)
    }

    /// The request with `number` that came with `payload`.
    pub fn stamp(number: u64, payload: Option<Vec<(String, V)>>) -> (request: Request<V>)
        ensures
            request.stamps(number, field_list(payload)),
    {
        let mut fields: Vec<(String, V)> = Vec::new();
        if let Some(all) = payload {
            let ghost given = all@;
            let mut rest: Vec<(String, V)> = all;
            let n: usize = rest.len();
            let mut i: usize = 0;
            reveal(Seq::filter);
            assert(given.take(0) =~= Seq::empty());
            assert(given.skip(0) =~= given);
            while i < n
                invariant
                    i <= n,
                    n == given.len(),
                    rest@ == given.skip(i as int),
                    fields@ == given.take(i as int).filter(is_plain_field()),
                decreases n - i,
            {
                let field: (String, V) = rest.remove(0);
                reveal(Seq::filter);
                assert(rest@ =~= given.skip(i + 1));
                assert(given.take(i + 1).drop_last() =~= given.take(i as int));
                assert(given.take(i + 1).last() == field);
                if !same_text(field.0.as_str(), "seq") {
                    fields.push(field);
                }
                i += 1;
            }
            assert(given.take(n as int) =~= given);
        }
        Request { number, fields }
    }
}

/// A request keeps every field it came with, but for one named like its number.
pub proof fn law_request_keeps_its_fields<V>(fields: Seq<(String, V)>, field: (String, V))
    ensures
        plain_fields(Some(fields)).contains(field) <==> fields.contains(field) && field.0@
            != number_field(),
    decreases fields.len(),
{
    reveal(Seq::filter);
    if fields.len() > 0 {
        let rest = fields.drop_last();
        let last = fields.last();
        law_request_keeps_its_fields(rest, field);
        let kept = rest.filter(is_plain_field::<V>());
        assert(fields =~= rest.push(last));
        assert(fields.contains(field) <==> rest.contains(field) || field == last) by {
            if rest.contains(field) {
                let i = choose|i: int| 0 <= i < rest.len() && rest[i] == field;
                assert(fields[i] == field);
            }
            assert(fields[fields.len() - 1] == last);
        }
        if last.0@ != number_field() {
            let more = kept.push(last);
            assert(more.contains(field) <==> kept.contains(field) || field == last) by {
                if kept.contains(field) {
                    let i = choose|i: int| 0 <= i < kept.len() && kept[i] == field;
                    assert(more[i] == field);
                }
                assert(more[kept.len() as int] == last);
            }
        }
    }
}

/// An entry of a list without repetition is found under its label.
proof fn lemma_parked<V>(entries: Seq<(String, V)>, i: int)
    requires
        labels_differ(entries),
        0 <= i < entries.len(),
    ensures
        parked(entries).contains_key(entries[i].0@),
        parked(entries)[entries[i].0@] == entries[i].1,
{
    let label = entries[i].0@;
    assert(parked_at(entries, label, i));
    let j = choose|j: int| parked_at(entries, label, j);
    assert(parked_at(entries, label, j));
    if i < j {
        assert(entries[i].0@ != entries[j].0@);
    } else if j < i {
        assert(entries[j].0@ != entries[i].0@);
    }
}

/// Taking an entry out of a list takes its label out.
proof fn lemma_parked_remove<V>(entries: Seq<(String, V)>, i: int)
    requires
        labels_differ(entries),
        0 <= i < entries.len(),
    ensures
        labels_differ(entries.remove(i)),
        parked(entries.remove(i)) == parked(entries).remove(entries[i].0@),
{
    let rest = entries.remove(i);
    let gone = entries[i].0@;
    assert forall|j: int, k: int| 0 <= j < k < rest.len() implies rest[j].0@ != rest[k].0@ by {
        let oj = if j < i { j } else { j + 1 };
        let ok = if k < i { k } else { k + 1 };
        assert(rest[j] == entries[oj] && rest[k] == entries[ok]);
    }
    assert forall|label: Seq<char>| #[trigger]
        parked(rest).contains_key(label) == parked(entries).remove(gone).contains_key(label) by {
        if parked(rest).contains_key(label) {
            let j = choose|j: int| parked_at(rest, label, j);
            let oj = if j < i { j } else { j + 1 };
            assert(rest[j] == entries[oj]);
            assert(parked_at(entries, label, oj));
            if oj < i {
                assert(entries[oj].0@ != entries[i].0@);
            } else {
                assert(entries[i].0@ != entries[oj].0@);
            }
        }
        if parked(entries).contains_key(label) && label != gone {
            let j = choose|j: int| parked_at(entries, label, j);
            let nj = if j < i { j } else { j - 1 };
            assert(rest[nj] == entries[j]);
            assert(parked_at(rest, label, nj));
        }
    }
    assert forall|label: Seq<char>| #[trigger]
        parked(rest).contains_key(label) implies parked(rest)[label] == parked(
        entries,
    )[label] by {
        let j = choose|j: int| parked_at(rest, label, j);
        assert(parked_at(rest, label, j));
        let oj = if j < i { j } else { j + 1 };
        assert(rest[j] == entries[oj]);
        lemma_parked(rest, j);
        lemma_parked(entries, oj);
    }
    assert(parked(rest) =~= parked(entries).remove(gone));
}

impl<V> View for PendingRequests<V> {
    type V = Map<Seq<char>, V>;

    closed spec fn view(&self) -> Map<Seq<char>, V> {
        parked(self.waiting@)
    }
}

impl<V> PendingRequests<V> {
    /// No label has two requests waiting.
    pub closed spec fn wf(&self) -> bool {
        labels_differ(self.waiting@)
    }

    /// The number that was given last.
    pub closed spec fn last_number(&self) -> u64 {
        self.numbered
    }

    /// No request waits.
    pub fn new() -> (requests: PendingRequests<V>)
        ensures
            requests.wf(),
            requests@ == Map::<Seq<char>, V>::empty(),
            requests.last_number() == 0,
    {
        let requests = PendingRequests { waiting: Vec::new(), numbered: 0 };
        assert(requests@ =~= Map::<Seq<char>, V>::empty());
        requests
    }

    /// Numbers a request, so that a window can tell one it has already applied.
    pub fn number(&mut self) -> (number: u64)
        requires
            old(self).wf(),
        ensures
            final(self).wf(),
            final(self)@ == old(self)@,
            number == next_number(old(self).last_number()),
            final(self).last_number() == number,
    {
        self.numbered = if self.numbered == u64::MAX {
            0
        } else {
            self.numbered + 1
        };
        self.numbered
    }

    /// Hands out the request that waits for the window with `label`, if one does.
    pub fn take(&mut self, label: &str) -> (request: Option<V>)
        requires
            old(self).wf(),
        ensures
            final(self).wf(),
            request == old(self)@.get(label@),
            final(self)@ == old(self)@.remove(label@),
            final(self).last_number() == old(self).last_number(),
    {
        let ghost before = self.waiting@;
        let mut i: usize = 0;
        while i < self.waiting.len()
            invariant
                i <= self.waiting@.len(),
                self.waiting@ == before,
                before == old(self).waiting@,
                self.numbered == old(self).numbered,
                labels_differ(before),
                forall|j: int| 0 <= j < i ==> (#[trigger] before[j]).0@ != label@,
            decreases self.waiting.len() - i,
        {
            if same_text(self.waiting[i].0.as_str(), label) {
                proof {
                    lemma_parked(before, i as int);
                    lemma_parked_remove(before, i as int);
                }
                let entry: (String, V) = self.waiting.remove(i);
                return Some(entry.1);
            }
            i += 1;
        }
        proof {
            assert(!parked(before).contains_key(label@)) by {
                if exists|j: int| parked_at(before, label@, j) {
                    let j = choose|j: int| parked_at(before, label@, j);
                    assert(before[j].0@ != label@);
                }
            }
            assert(parked(before) =~= parked(before).remove(label@));
        }
        None
    }

    /// Parks a request for the window with `label`, in place of one that waits.
    pub fn park(&mut self, label: &str, request: V)
        requires
            old(self).wf(),
        ensures
            final(self).wf(),
            final(self)@ == old(self)@.insert(label@, request),
            final(self).last_number() == old(self).last_number(),
    {
        let _: Option<V> = self.take(label);
        let ghost before = self.waiting@;
        assert forall|j: int| 0 <= j < before.len() implies (#[trigger] before[j]).0@
            != label@ by {
            if before[j].0@ == label@ {
                lemma_parked(before, j);
            }
        }
        self.waiting.push((label.to_owned(), request));
        proof {
            let after = self.waiting@;
            let n = before.len() as int;
            assert(after[n].0@ == label@ && after[n].1 == request);
            assert forall|j: int, k: int| 0 <= j < k < after.len() implies after[j].0@
                != after[k].0@ by {
                assert(after[j] == before[j]);
                if k < n {
                    assert(after[k] == before[k]);
                }
            }
            lemma_parked(after, n);
            assert(after.remove(n) =~= before);
            lemma_parked_remove(after, n);
            assert(parked(after) =~= parked(before).insert(label@, request));
            assert(parked(after) =~= old(self)@.insert(label@, request));
        }
    }

    /// A request for the window with `label`. If the window is open, the request
    /// is handed back, to be sent to it at once, and nothing waits for it any
    /// more. Otherwise the request is parked.
    pub fn submit(&mut self, label: &str, open: bool, request: V) -> (now: Option<V>)
        requires
            old(self).wf(),
        ensures
            final(self).wf(),
            now == if open {
                Some(request)
            } else {
                None
            },
            final(self)@ == if open {
                old(self)@.remove(label@)
            } else {
                old(self)@.insert(label@, request)
            },
            final(self).last_number() == old(self).last_number(),
    {
        if open {
            let _: Option<V> = self.take(label);
            Some(request)
        } else {
            self.park(label, request);
            None
        }
    }

    /// The window with `label`, built to serve a parked request, has been opened or
    /// not. If not, nothing will ever take the request, and it is withdrawn, so that
    /// no later window with that label gets it.
    pub fn opened(&mut self, label: &str, ok: bool)
        requires
            old(self).wf(),
        ensures
            final(self).wf(),
            final(self)@ == if ok {
                old(self)@
            } else {
                old(self)@.remove(label@)
            },
            final(self).last_number() == old(self).last_number(),
    {
        if !ok {
            let _: Option<V> = self.take(label);
        }
    }
}

impl<V> PendingRequests<Request<V>> {
    /// Numbers a request that came with `payload`, for the window with `label`. If
    /// the window is open, the request is handed back, to be sent to it at once.
    /// Otherwise it is parked.
    pub fn request(
        &mut self,
        label: &str,
        open: bool,
        payload: Option<Vec<(String, V)>>,
    ) -> (now: Option<Request<V>>)
        requires
            old(self).wf(),
        ensures
            final(self).wf(),
            final(self).last_number() == next_number(old(self).last_number()),
            exists|request: Request<V>| #[trigger]
                request.stamps(final(self).last_number(), field_list(payload)) && if open {
                    now == Some(request) && final(self)@ == old(self)@.remove(label@)
                } else {
                    now is None && final(self)@ == old(self)@.insert(label@, request)
                },
    {
        let number: u64 = self.number();
        let request: Request<V> = Request::stamp(number, payload);
        assert(request.stamps(number, field_list(payload)));
        self.submit(label, open, request)
    }
}

/// A parked request is taken by the window it is for, once, and by no other; and
/// what waits for the others stays.
pub proof fn law_each_window_takes_its_own<V>(
    waiting: Map<Seq<char>, V>,
    label: Seq<char>,
    request: V,
    other: Seq<char>,
)
    requires
        other != label,
    ensures
        waiting.insert(label, request).get(label) == Some(request),
        waiting.insert(label, request).remove(label).get(label) is None,
        waiting.insert(label, request).get(other) == waiting.get(other),
        waiting.insert(label, request).remove(other).get(label) == Some(request),
{
}

/// Of the fields that a request came with, those not named like its number stay one by
/// one, in their order.
pub proof fn law_fields_stay_in_order<V>(
    a: Seq<(String, V)>,
    b: Seq<(String, V)>,
    field: (String, V),
)
    ensures
        plain_fields(Some(a + b)) == plain_fields(Some(a)) + plain_fields(Some(b)),
        field.0@ == seq!['s', 'e', 'q'] ==> plain_fields(Some(seq![field])).len() == 0,
        field.0@ != seq!['s', 'e', 'q'] ==> plain_fields(Some(seq![field])) == seq![field],
        plain_fields(None::<Seq<(String, V)>>).len() == 0,
    decreases b.len(),
{
    reveal(Seq::filter);
    reveal_strlit("seq");
    assert("seq"@ =~= seq!['s', 'e', 'q']);
    let one = seq![field];
    assert(one.drop_last() =~= Seq::<(String, V)>::empty());
    assert(one.drop_last().filter(is_plain_field()) =~= Seq::<(String, V)>::empty());
    assert(one.last() == field);
    if field.0@ != seq!['s', 'e', 'q'] {
        assert(one.filter(is_plain_field()) =~= one);
    }
    if b.len() == 0 {
        assert(a + b =~= a);
        assert(plain_fields(Some(a)) + plain_fields(Some(b)) =~= plain_fields(Some(a)));
    } else {
        law_fields_stay_in_order(a, b.drop_last(), field);
        assert((a + b).drop_last() =~= a + b.drop_last());
        assert((a + b).last() == b.last());
        assert(plain_fields(Some(a + b)) =~= plain_fields(Some(a)) + plain_fields(Some(b)));
    }
}

} // verus!
