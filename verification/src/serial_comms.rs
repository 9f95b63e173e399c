//! The names and labels of the serial ports of the machine, in the order of
//! their numbers. Finding the ports and reading from them is left to the
//! application.

use crate::text::{str_chars, string_from_chars};
use crate::tokenizer::{parse_i32, parse_range};
use vstd::prelude::*;
use vstd::seq_lib::to_multiset_insert;
use vstd::string::StringExecFns;

verus! {

/// What kind of device a port belongs to.
#[derive(Debug)]
pub enum PortType {
    /// A USB device, with the name of the product where it gives one.
    UsbPort { product: Option<String> },
    /// Any other port.
    Other,
}

/// A serial port of the machine.
#[derive(Debug)]
pub struct PortInfo {
    /// The name that the port is opened by, such as `COM3`.
    pub port_name: String,
    pub port_type: PortType,
}

/// `name` without the text `COM`, wherever it stands.
pub open spec fn without_com(name: Seq<char>) -> Seq<char>
    decreases name.len(),
{
    if name.len() == 0 {
        name
    } else if name.len() >= 3 && name[0] == 'C' && name[1] == 'O' && name[2] == 'M' {
        without_com(name.skip(3))
    } else {
        seq![name[0]] + without_com(name.drop_first())
    }
}

/// The number of a port: what its name spells without `COM`, if that is an
/// integer of 32 bits.
pub open spec fn port_number(name: Seq<char>) -> Option<i32> {
    parse_i32(without_com(name))
}

/// The number that a port is ordered by.
pub open spec fn port_key(port: PortInfo) -> int {
    port_number(port.port_name@).unwrap() as int
}

/// Where a port with the number `key` goes into `sorted`: behind the last
/// of the ports at the head whose number is not above `key`.
pub open spec fn insertion_point(sorted: Seq<PortInfo>, key: int) -> int
    decreases sorted.len(),
{
    if sorted.len() == 0 || port_key(sorted[0]) > key {
        0
    } else {
        1 + insertion_point(sorted.drop_first(), key)
    }
}

/// `ports` in the order of their numbers. Ports with the same number stay
/// in the order in which they came.
pub open spec fn sorted_ports(ports: Seq<PortInfo>) -> Seq<PortInfo>
    decreases ports.len(),
{
    if ports.len() == 0 {
        ports
    } else {
        let sorted = sorted_ports(ports.drop_last());
        sorted.insert(insertion_point(sorted, port_key(ports.last())), ports.last())
    }
}

/// The name of the product behind a port, empty where the port is no USB
/// device or the device gives none.
pub open spec fn usb_device_name(port: PortInfo) -> Seq<char> {
    match port.port_type {
        PortType::UsbPort { product: Some(name) } => name@,
        _ => Seq::empty(),
    }
}

/// The label of a port: its name, a space, and the name of the product.
pub open spec fn port_label(port: PortInfo) -> Seq<char> {
    port.port_name@ + seq![' '] + usb_device_name(port)
}

/// Whether every port has a number.
pub open spec fn all_numbered(ports: Seq<PortInfo>) -> bool {
    forall|i: int| 0 <= i < ports.len() ==> port_number((#[trigger] ports[i]).port_name@) is Some
}

/// The insertion point lies behind ports whose number is not above the key
/// and before a port whose number is.
pub proof fn lemma_insertion_point(sorted: Seq<PortInfo>, key: int)
    ensures
        0 <= insertion_point(sorted, key) <= sorted.len(),
        forall|j: int| 0 <= j < insertion_point(sorted, key) ==> port_key(sorted[j]) <= key,
        insertion_point(sorted, key) < sorted.len() ==> port_key(
            sorted[insertion_point(sorted, key)],
        ) > key,
    decreases sorted.len(),
{
    if sorted.len() != 0 && port_key(sorted[0]) <= key {
        let rest = sorted.drop_first();
        lemma_insertion_point(rest, key);
        assert forall|j: int| 0 <= j < insertion_point(sorted, key) implies port_key(sorted[j])
            <= key by {
            if j > 0 {
                assert(sorted[j] == rest[j - 1]);
            }
        }
    }
}

/// The only index behind ports whose number is not above the key and before
/// a port whose number is (or at the end) is the insertion point.
proof fn lemma_insertion_point_is(sorted: Seq<PortInfo>, key: int, p: int)
    requires
        0 <= p <= sorted.len(),
        forall|j: int| 0 <= j < p ==> port_key(sorted[j]) <= key,
        p < sorted.len() ==> port_key(sorted[p]) > key,
    ensures
        insertion_point(sorted, key) == p,
{
    lemma_insertion_point(sorted, key);
    let q = insertion_point(sorted, key);
    if q < p {
        assert(port_key(sorted[q]) <= key);
    } else if p < q {
        assert(port_key(sorted[p]) <= key);
    }
}

/// Sorting neither drops nor adds a port, and leaves the numbers in
/// non-decreasing order.
pub proof fn lemma_sorted_ports(ports: Seq<PortInfo>)
    ensures
        sorted_ports(ports).len() == ports.len(),
        sorted_ports(ports).to_multiset() == ports.to_multiset(),
        forall|i: int, j: int|
            0 <= i < j < ports.len() ==> port_key(sorted_ports(ports)[i]) <= port_key(
                sorted_ports(ports)[j],
            ),
    decreases ports.len(),
{
    if ports.len() > 0 {
        let sorted = sorted_ports(ports.drop_last());
        let port = ports.last();
        let p = insertion_point(sorted, port_key(port));
        lemma_sorted_ports(ports.drop_last());
        lemma_insertion_point(sorted, port_key(port));
        to_multiset_insert(sorted, p, port);
        vstd::seq_lib::to_multiset_build(ports.drop_last(), port);
        assert(ports.drop_last().push(port) =~= ports);
        let result = sorted.insert(p, port);
        sorted.insert_ensures(p, port);
        assert forall|i: int, j: int| 0 <= i < j < ports.len() implies port_key(result[i])
            <= port_key(result[j]) by {
            if j < p {
                assert(result[i] == sorted[i] && result[j] == sorted[j]);
            } else if j == p {
                assert(result[i] == sorted[i]);
            } else if i < p {
                assert(result[i] == sorted[i] && result[j] == sorted[j - 1]);
                assert(port_key(sorted[p]) <= port_key(sorted[j - 1])) by {
                    if p < j - 1 {
                    }
                }
            } else if i == p {
                assert(result[j] == sorted[j - 1]);
                if p < j - 1 {
                    assert(port_key(sorted[p]) <= port_key(sorted[j - 1]));
                }
            } else {
                assert(result[i] == sorted[i - 1] && result[j] == sorted[j - 1]);
            }
        }
    }
}

/// The predicate that picks the ports with the number `key`.
pub open spec fn has_number(key: int) -> spec_fn(PortInfo) -> bool {
    |port: PortInfo| port_key(port) == key
}

/// Ports none of which has the number `key` leave nothing when those with
/// that number are picked.
proof fn lemma_none_picked(ports: Seq<PortInfo>, key: int)
    requires
        forall|j: int| 0 <= j < ports.len() ==> port_key(ports[j]) != key,
    ensures
        ports.filter(has_number(key)) == Seq::<PortInfo>::empty(),
    decreases ports.len(),
{
    reveal(Seq::filter);
    if ports.len() > 0 {
        lemma_none_picked(ports.drop_last(), key);
    }
}

/// Sorting is stable: the ports with one number come out in the order in
/// which they went in.
pub proof fn lemma_sorting_is_stable(ports: Seq<PortInfo>, key: int)
    ensures
        sorted_ports(ports).filter(has_number(key)) == ports.filter(has_number(key)),
    decreases ports.len(),
{
    reveal(Seq::filter);
    if ports.len() > 0 {
        let picked = has_number(key);
        let earlier = ports.drop_last();
        let port = ports.last();
        let sorted = sorted_ports(earlier);
        let p = insertion_point(sorted, port_key(port));
        lemma_sorting_is_stable(earlier, key);
        lemma_sorted_ports(earlier);
        lemma_insertion_point(sorted, port_key(port));
        let head = sorted.subrange(0, p);
        let tail = sorted.subrange(p, sorted.len() as int);
        assert(sorted =~= head + tail);
        Seq::filter_distributes_over_add(head, tail, picked);
        Seq::filter_distributes_over_add(head.push(port), tail, picked);
        assert(head.push(port).drop_last() =~= head);
        if port_key(port) == key {
            assert forall|j: int| 0 <= j < tail.len() implies port_key(tail[j]) != key by {
                assert(tail[j] == sorted[p + j]);
                if j > 0 {
                    assert(port_key(sorted[p]) <= port_key(sorted[p + j]));
                }
            }
            lemma_none_picked(tail, key);
            assert(head.filter(picked) + Seq::<PortInfo>::empty() =~= head.filter(picked));
            assert(head.filter(picked).push(port) + Seq::<PortInfo>::empty() =~= head.filter(
                picked,
            ).push(port));
        }
    }
}

/// The number of the port named `name`, if it has one.
pub fn get_port_number(name: &str) -> (number: Option<i32>)
    ensures
        number == port_number(name@),
{
    let chars = str_chars(name);
    let n = chars.len();
    let mut kept: Vec<char> = Vec::new();
    let mut i: usize = 0;
    proof {
        assert(chars@.skip(0) =~= chars@);
        assert(kept@ + without_com(chars@) =~= without_com(chars@));
    }
    while i < n
        invariant
            i <= n,
            n == chars.len(),
            without_com(chars@) == kept@ + without_com(chars@.skip(i as int)),
        decreases n - i,
    {
        let ghost rest = chars@.skip(i as int);
        if n - i >= 3 && chars[i] == 'C' && chars[i + 1] == 'O' && chars[i + 2] == 'M' {
            proof {
                assert(rest.skip(3) =~= chars@.skip(i as int + 3));
            }
            i += 3;
        } else {
            let ghost before = kept@;
            kept.push(chars[i]);
            proof {
                assert(rest.drop_first() =~= chars@.skip(i as int + 1));
                assert(before + (seq![rest[0]] + without_com(rest.drop_first())) =~= kept@
                    + without_com(rest.drop_first()));
            }
            i += 1;
        }
    }
    proof {
        assert(kept@ + Seq::<char>::empty() =~= kept@);
        assert(kept@.subrange(0, kept@.len() as int) =~= kept@);
    }
    parse_range(&kept, 0, kept.len())
}

/// The name of the product behind a port, empty where the port is no USB
/// device or the device gives none.
pub fn get_usb_device_name(port_info: &PortInfo) -> (name: String)
    ensures
        name@ == usb_device_name(*port_info),
{
    match &port_info.port_type {
        PortType::UsbPort { product } => match product {
            Some(product_name) => product_name.clone(),
            None => String::new(),
        },
        _ => String::new(),
    }
}

/// The names of `available_ports` and their labels, both in the order of
/// the ports' numbers, or `None` if there is no port. Every port must have
/// a number.
pub fn get_available_port_names(available_ports: &Vec<PortInfo>) -> (ports: Option<
    (Vec<String>, Vec<String>),
>)
    requires
        all_numbered(available_ports@),
    ensures
        match ports {
            Some((names, labels)) => {
                &&& available_ports@.len() > 0
                &&& names.deep_view() == sorted_ports(available_ports@).map_values(
                    |port: PortInfo| port.port_name@,
                )
                &&& labels.deep_view() == sorted_ports(available_ports@).map_values(
                    |port: PortInfo| port_label(port),
                )
            },
            None => available_ports@.len() == 0,
        },
{
    if available_ports.len() == 0 {
        return None;
    }
    let order = sorted_order(available_ports);
    let ghost sorted = sorted_ports(available_ports@);
    proof {
        lemma_sorted_ports(available_ports@);
    }
    let mut names: Vec<String> = Vec::new();
    let mut labels: Vec<String> = Vec::new();
    let mut i: usize = 0;
    while i < order.len()
        invariant
            i <= order.len(),
            order.len() == sorted.len(),
            forall|k: int|
                0 <= k < order.len() ==> 0 <= #[trigger] order[k] < available_ports.len()
                    && available_ports[order[k] as int] == sorted[k],
            names.deep_view() == sorted.take(i as int).map_values(
                |port: PortInfo| port.port_name@,
            ),
            labels.deep_view() == sorted.take(i as int).map_values(
                |port: PortInfo| port_label(port),
            ),
        decreases order.len() - i,
    {
        let port = &available_ports[order[i]];
        let ghost names_before = names.deep_view();
        let ghost labels_before = labels.deep_view();
        let name = port.port_name.clone();
        let mut label = port.port_name.clone();
        label.push(' ');
        let product = get_usb_device_name(port);
        label.append(product.as_str());
        assert(label@ =~= port_label(*port));
        names.push(name);
        labels.push(label);
        i += 1;
        proof {
            assert(names.deep_view() =~= names_before.push(name@));
            assert(labels.deep_view() =~= labels_before.push(label@));
            assert(sorted.take(i as int) =~= sorted.take(i as int - 1).push(*port));
            assert(names_before.push(name@) =~= sorted.take(i as int).map_values(
                |port: PortInfo| port.port_name@,
            ));
            assert(labels_before.push(label@) =~= sorted.take(i as int).map_values(
                |port: PortInfo| port_label(port),
            ));
        }
    }
    proof {
        assert(sorted.take(sorted.len() as int) =~= sorted);
    }
    Some((names, labels))
}

/// The indices of `ports` in the order of the ports' numbers.
fn sorted_order(ports: &Vec<PortInfo>) -> (order: Vec<usize>)
    requires
        all_numbered(ports@),
    ensures
        order.len() == ports.len(),
        forall|k: int|
            0 <= k < order.len() ==> 0 <= #[trigger] order[k] < ports.len() && ports[order[k] as int]
                == sorted_ports(ports@)[k],
{
    let mut keys: Vec<i32> = Vec::new();
    let mut order: Vec<usize> = Vec::new();
    let mut n: usize = 0;
    while n < ports.len()
        invariant
            n <= ports.len(),
            all_numbered(ports@),
            keys.len() == n,
            order.len() == n,
            forall|k: int| 0 <= k < n ==> #[trigger] keys[k] as int == port_key(ports[k]),
            order.len() == sorted_ports(ports@.take(n as int)).len(),
            forall|k: int|
                0 <= k < order.len() ==> 0 <= #[trigger] order[k] < n && ports[order[k] as int]
                    == sorted_ports(ports@.take(n as int))[k],
        decreases ports.len() - n,
    {
        let ghost sorted = sorted_ports(ports@.take(n as int));
        assert(port_number(ports@[n as int].port_name@) is Some);
        let key = get_port_number(ports[n].port_name.as_str()).unwrap();
        let mut p: usize = 0;
        while p < order.len() && keys[order[p]] <= key
            invariant
                p <= order.len(),
                order.len() == n,
                keys.len() == n,
                order.len() == sorted.len(),
                forall|k: int| 0 <= k < n ==> #[trigger] keys[k] as int == port_key(ports[k]),
                forall|k: int|
                    0 <= k < order.len() ==> 0 <= #[trigger] order[k] < n && ports[order[k] as int]
                        == sorted[k],
                forall|j: int| 0 <= j < p ==> port_key(sorted[j]) <= key,
            decreases order.len() - p,
        {
            p += 1;
        }
        proof {
            lemma_insertion_point_is(sorted, key as int, p as int);
            let taken = ports@.take(n as int + 1);
            assert(taken.drop_last() =~= ports@.take(n as int));
            assert(taken.last() == ports@[n as int]);
            sorted.insert_ensures(p as int, ports@[n as int]);
        }
        keys.push(key);
        order.insert(p, n);
        n += 1;
        proof {
            let now = sorted_ports(ports@.take(n as int));
            assert forall|k: int| 0 <= k < order.len() implies 0 <= #[trigger] order[k] < n
                && ports[order[k] as int] == now[k] by {
                if k < p {
                } else if k == p {
                } else {
                    assert(now[k] == sorted[k - 1]);
                }
            }
        }
    }
    assert(ports@.take(ports@.len() as int) =~= ports@);
    order
}

} // verus!
