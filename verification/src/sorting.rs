//! Ordering reports by port, keeping reports on one port in the order in
//! which they came.

use vstd::prelude::*;
use crate::model::{PortReport, ReportModel};

verus! {

/// The ports do not decrease along `reports`.
pub open spec fn sorted_by_port(reports: Seq<ReportModel>) -> bool {
    forall|i: int, j: int| 0 <= i <= j < reports.len() ==> reports[i].port <= reports[j].port
}

/// Picks the reports on `port`.
pub open spec fn on_port(port: u16) -> spec_fn(ReportModel) -> bool {
    |report: ReportModel| report.port == port
}

/// `output` is `input` sorted by port, ascending, with the reports on one
/// port in the order they have in `input`: it is as long as `input`, its
/// ports do not decrease, and for every port the reports on that port are
/// those of `input`, one after the other as they stand there.
pub open spec fn is_stable_sort_by_port(
    input: Seq<ReportModel>,
    output: Seq<ReportModel>,
) -> bool {
    &&& output.len() == input.len()
    &&& sorted_by_port(output)
    &&& forall|port: u16| #[trigger]
        output.filter(on_port(port)) == input.filter(on_port(port))
}

/// Two sequences that are sorted by port and hold, for every port, the same
/// reports in the same order are one sequence.
proof fn lemma_same_ports_same_reports(first: Seq<ReportModel>, second: Seq<ReportModel>)
    requires
        sorted_by_port(first),
        sorted_by_port(second),
        forall|port: u16| #[trigger]
            first.filter(on_port(port)) == second.filter(on_port(port)),
    ensures
        first == second,
    decreases first.len(),
{
    if first.len() == 0 {
        if second.len() > 0 {
            let q = second.last().port;
            assert(on_port(q)(second[second.len() - 1]));
            assert(second.filter(on_port(q)).contains(second[second.len() - 1]));
            assert(first.filter(on_port(q)) == second.filter(on_port(q)));
            assert(first.filter(on_port(q)).len() <= first.len());
        }
        assert(first =~= second);
    } else {
        let x = first.last();
        let p = x.port;
        let first_rest = first.drop_last();
        assert(first =~= first_rest.push(x));
        first_rest.lemma_filter_push(x, on_port(p));
        assert(first.filter(on_port(p)) == second.filter(on_port(p)));
        assert(second.filter(on_port(p)).len() <= second.len());
        let y = second.last();
        let q = y.port;
        let second_rest = second.drop_last();
        assert(second =~= second_rest.push(y));
        second_rest.lemma_filter_push(y, on_port(q));
        assert(first.filter(on_port(q)) == second.filter(on_port(q)));
        assert(p <= q) by {
            let on_p = first_rest.filter(on_port(p)).push(x);
            assert(on_p[on_p.len() - 1] == x);
            assert(second.filter(on_port(p)).contains(x));
            second.lemma_filter_contains_rev(on_port(p), x);
            let i = choose|i: int| 0 <= i < second.len() && second[i] == x;
            assert(second[i].port <= second[second.len() - 1].port);
        }
        assert(q <= p) by {
            let on_q = second_rest.filter(on_port(q)).push(y);
            assert(on_q[on_q.len() - 1] == y);
            assert(first.filter(on_port(q)).contains(y));
            first.lemma_filter_contains_rev(on_port(q), y);
            let i = choose|i: int| 0 <= i < first.len() && first[i] == y;
            assert(first[i].port <= first[first.len() - 1].port);
        }
        let first_on_p = first_rest.filter(on_port(p));
        let second_on_p = second_rest.filter(on_port(p));
        assert(first_on_p.push(x) == second_on_p.push(y));
        assert(x == y) by {
            assert(first_on_p.push(x)[first_on_p.len() as int] == x);
            assert(second_on_p.push(y)[second_on_p.len() as int] == y);
        }
        assert(first_on_p =~= second_on_p) by {
            assert(first_on_p.push(x).drop_last() =~= first_on_p);
            assert(second_on_p.push(y).drop_last() =~= second_on_p);
        }
        assert forall|port: u16| #[trigger]
            first_rest.filter(on_port(port)) == second_rest.filter(on_port(port)) by {
            first_rest.lemma_filter_push(x, on_port(port));
            second_rest.lemma_filter_push(y, on_port(port));
            assert(first.filter(on_port(port)) == second.filter(on_port(port)));
        }
        lemma_same_ports_same_reports(first_rest, second_rest);
    }
}

/// The stable sort by port of an input is one sequence and no other.
pub proof fn lemma_stable_sort_is_unique(
    input: Seq<ReportModel>,
    first: Seq<ReportModel>,
    second: Seq<ReportModel>,
)
    requires
        is_stable_sort_by_port(input, first),
        is_stable_sort_by_port(input, second),
    ensures
        first == second,
{
    assert forall|port: u16| #[trigger]
        first.filter(on_port(port)) == second.filter(on_port(port)) by {
        assert(first.filter(on_port(port)) == input.filter(on_port(port)));
        assert(second.filter(on_port(port)) == input.filter(on_port(port)));
    }
    lemma_same_ports_same_reports(first, second);
}

/// In a stable order by port, the report at index `a` of `input` stands
/// before the one at index `b`.
pub open spec fn precedes(input: Seq<ReportModel>, a: int, b: int) -> bool {
    input[a].port < input[b].port || (input[a].port == input[b].port && a < b)
}

/// `output` holds, at each position `k`, the report at index `origin[k]` of
/// `input`, and takes the reports in stable order by port.
pub open spec fn arranged_by(
    input: Seq<ReportModel>,
    output: Seq<ReportModel>,
    origin: Seq<int>,
) -> bool {
    &&& origin.len() == input.len()
    &&& output.len() == input.len()
    &&& forall|k: int|
        0 <= k < origin.len() ==> 0 <= #[trigger] origin[k] < input.len() && output[k]
            == input[origin[k]]
    &&& forall|i: int, j: int|
        0 <= i < j < origin.len() ==> precedes(input, #[trigger] origin[i], #[trigger] origin[j])
}

/// In a stable arrangement every report of the input has its place in the
/// output: each index of the input is the origin of some position.
proof fn lemma_arrangement_covers_input(
    input: Seq<ReportModel>,
    output: Seq<ReportModel>,
    origin: Seq<int>,
    j: int,
)
    requires
        arranged_by(input, output, origin),
        0 <= j < input.len(),
    ensures
        exists|k: int| 0 <= k < origin.len() && #[trigger] origin[k] == j,
{
    let n = input.len() as int;
    assert(origin.no_duplicates()) by {
        assert forall|a: int, b: int|
            0 <= a < origin.len() && 0 <= b < origin.len() && a != b implies origin[a]
            != origin[b] by {
            if a < b {
                assert(precedes(input, origin[a], origin[b]));
            } else {
                assert(precedes(input, origin[b], origin[a]));
            }
        }
    }
    origin.unique_seq_to_set();
    vstd::seq_lib::seq_to_set_is_finite(origin);
    vstd::set_lib::lemma_int_range(0, n);
    assert(origin.to_set().subset_of(vstd::set_lib::set_int_range(0, n)));
    vstd::set_lib::lemma_subset_equality(origin.to_set(), vstd::set_lib::set_int_range(0, n));
    assert(vstd::set_lib::set_int_range(0, n).contains(j));
    assert(origin.contains(j));
}

/// Where no report is on `port`, picking the reports on `port` leaves none.
proof fn lemma_none_on_port(reports: Seq<ReportModel>, port: u16)
    requires
        forall|k: int| 0 <= k < reports.len() ==> (#[trigger] reports[k]).port != port,
    ensures
        reports.filter(on_port(port)) == Seq::<ReportModel>::empty(),
    decreases reports.len(),
{
    if reports.len() == 0 {
        reports.lemma_filter_len(on_port(port));
        assert(reports.filter(on_port(port)) =~= Seq::<ReportModel>::empty());
    } else {
        lemma_none_on_port(reports.drop_last(), port);
        reports.drop_last().lemma_filter_push(reports.last(), on_port(port));
        assert(reports =~= reports.drop_last().push(reports.last()));
    }
}

/// A stable arrangement holds the reports on `port` in the order of the
/// input.
proof fn lemma_arrangement_keeps_each_port(
    input: Seq<ReportModel>,
    output: Seq<ReportModel>,
    origin: Seq<int>,
    port: u16,
)
    requires
        arranged_by(input, output, origin),
    ensures
        output.filter(on_port(port)) == input.filter(on_port(port)),
    decreases input.len(),
{
    if input.len() == 0 {
        assert(output =~= input);
    } else {
        let n = input.len() as int;
        lemma_arrangement_covers_input(input, output, origin, n - 1);
        let at = choose|k: int| 0 <= k < origin.len() && #[trigger] origin[k] == n - 1;
        let moved = input[n - 1];
        let head = output.subrange(0, at);
        let tail = output.subrange(at + 1, n);
        let rest = input.drop_last();
        let rest_output = output.remove(at);
        let rest_origin = origin.remove(at);
        assert forall|k: int| 0 <= k < n - 1 implies 0 <= #[trigger] rest_origin[k] < n - 1
            && rest_output[k] == rest[rest_origin[k]] by {
            let k0 = if k < at { k } else { k + 1 };
            assert(rest_origin[k] == origin[k0]);
            if k0 < at {
                assert(precedes(input, origin[k0], origin[at]));
            } else {
                assert(precedes(input, origin[at], origin[k0]));
            }
        }
        assert forall|i: int, j: int| 0 <= i < j < n - 1 implies precedes(
            rest,
            #[trigger] rest_origin[i],
            #[trigger] rest_origin[j],
        ) by {
            let i0 = if i < at { i } else { i + 1 };
            let j0 = if j < at { j } else { j + 1 };
            assert(rest_origin[i] == origin[i0]);
            assert(rest_origin[j] == origin[j0]);
            assert(precedes(input, origin[i0], origin[j0]));
        }
        lemma_arrangement_keeps_each_port(rest, rest_output, rest_origin, port);
        assert(output =~= head.push(moved) + tail);
        assert(rest_output =~= head + tail);
        assert(input =~= rest.push(moved));
        head.lemma_filter_push(moved, on_port(port));
        rest.lemma_filter_push(moved, on_port(port));
        if moved.port == port {
            assert forall|k: int| 0 <= k < tail.len() implies (#[trigger] tail[k]).port
                != port by {
                assert(precedes(input, origin[at], origin[at + 1 + k]));
            }
            lemma_none_on_port(tail, port);
        }
    }
}

/// A sequence that takes the reports of `input` in stable order by port is
/// the stable sort of `input`.
pub proof fn lemma_arrangement_is_stable_sort(
    input: Seq<ReportModel>,
    output: Seq<ReportModel>,
    origin: Seq<int>,
)
    requires
        arranged_by(input, output, origin),
    ensures
        is_stable_sort_by_port(input, output),
{
    assert forall|i: int, j: int| 0 <= i <= j < output.len() implies output[i].port
        <= output[j].port by {
        if i < j {
            assert(precedes(input, origin[i], origin[j]));
        }
    }
    assert forall|port: u16| #[trigger]
        output.filter(on_port(port)) == input.filter(on_port(port)) by {
        lemma_arrangement_keeps_each_port(input, output, origin, port);
    }
}

/// Taking the element at `from` out of `s` and putting it back at `to`
/// shifts the elements in between by one place and leaves the others.
proof fn lemma_moved<T>(s: Seq<T>, from: int, to: int)
    requires
        0 <= to <= from < s.len(),
    ensures
        s.remove(from).insert(to, s[from]).len() == s.len(),
        forall|k: int| 0 <= k < to ==> #[trigger] s.remove(from).insert(to, s[from])[k] == s[k],
        s.remove(from).insert(to, s[from])[to] == s[from],
        forall|k: int|
            to < k <= from ==> #[trigger] s.remove(from).insert(to, s[from])[k] == s[k - 1],
        forall|k: int|
            from < k < s.len() ==> #[trigger] s.remove(from).insert(to, s[from])[k] == s[k],
{
}

/// Sorts `reports` by port, ascending. Reports on one port keep their order.
/// An insertion sort: it moves each report left to its place, so a list that
/// is nearly in order costs little.
pub fn sort_by_port(reports: &mut Vec<PortReport>)
    ensures
        is_stable_sort_by_port(old(reports).deep_view(), final(reports).deep_view()),
{
    let n = reports.len();
    let ghost input = reports.deep_view();
    let ghost mut origin: Seq<int> = Seq::new(n as nat, |k: int| k);
    let mut i: usize = 0;
    while i < n
        invariant
            i <= n,
            reports.len() == n,
            input.len() == n,
            origin.len() == n,
            forall|k: int|
                0 <= k < n ==> 0 <= #[trigger] origin[k] < n && reports@[k].deep_view()
                    == input[origin[k]],
            forall|k: int| 0 <= k < i ==> #[trigger] origin[k] < i,
            forall|k: int| i <= k < n ==> #[trigger] origin[k] == k,
            forall|a: int, b: int|
                0 <= a < b < i ==> precedes(input, #[trigger] origin[a], #[trigger] origin[b]),
        decreases n - i,
    {
        let port = reports[i].port;
        let mut at: usize = i;
        while at > 0 && reports[at - 1].port > port
            invariant
                at <= i < n,
                reports.len() == n,
                port == reports@[i as int].port,
                forall|k: int| at <= k < i ==> (#[trigger] reports@[k]).port > port,
            decreases at,
        {
            at -= 1;
        }
        let ghost before = reports@;
        let ghost origin_before = origin;
        proof {
            assert(input[i as int].port == port) by {
                assert(origin[i as int] == i);
            }
            assert forall|k: int| 0 <= k < at implies input[#[trigger] origin[k]].port
                <= port by {
                assert(before[at - 1].deep_view() == input[origin[at - 1]]);
                if k < at - 1 {
                    assert(precedes(input, origin[k], origin[at - 1]));
                }
            }
            assert forall|k: int| at <= k < i implies input[#[trigger] origin[k]].port
                > port by {
                assert(before[k].deep_view() == input[origin[k]]);
            }
        }
        if at < i {
            let moved = reports.remove(i);
            reports.insert(at, moved);
            proof {
                origin = origin_before.remove(i as int).insert(at as int, i as int);
                lemma_moved(before, i as int, at as int);
                lemma_moved(origin_before, i as int, at as int);
                assert(reports@ == before.remove(i as int).insert(at as int, before[i as int]));
                assert(origin_before[i as int] == i);
            }
        }
        proof {
            assert forall|a: int, b: int| 0 <= a < b < i + 1 implies precedes(
                input,
                #[trigger] origin[a],
                #[trigger] origin[b],
            ) by {
                let a0 = if a < at { a } else if a == at { i as int } else { a - 1 };
                let b0 = if b < at { b } else if b == at { i as int } else { b - 1 };
                assert(origin[a] == origin_before[a0]);
                assert(origin[b] == origin_before[b0]);
                if a == at {
                    assert(input[origin_before[b0]].port > port);
                } else if b == at {
                    assert(input[origin_before[a0]].port <= port);
                    assert(origin_before[a0] < i);
                } else {
                    assert(precedes(input, origin_before[a0], origin_before[b0]));
                }
            }
        }
        i += 1;
    }
    proof {
        assert(reports.deep_view().len() == n);
        assert forall|k: int| 0 <= k < n implies reports.deep_view()[k]
            == input[#[trigger] origin[k]] by {
            assert(reports.deep_view()[k] == reports@[k].deep_view());
        }
        lemma_arrangement_is_stable_sort(input, reports.deep_view(), origin);
    }
}

} // verus!
