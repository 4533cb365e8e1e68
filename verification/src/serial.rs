//! Choosing the serial port to connect to, and the listing of the ports
//! found.
use vstd::prelude::*;

use crate::foreign::contains_run;

verus! {

/// The port asked for, or else the first of the ports found.
pub open spec fn port_choice(port_opt: Option<String>, available: Seq<String>) -> Option<String> {
    match port_opt {
        Some(p) => Some(p),
        None => if available.len() > 0 {
            Some(available[0])
        } else {
            None
        },
    }
}

/// The port to connect to: the one asked for, or else the first of the
/// ports found (`available` is only read when no port was asked for).
pub fn get_port(port_opt: Option<String>, available: &Vec<String>) -> (r: Option<String>)
    ensures
        r == port_choice(port_opt, available@),
{
    match port_opt {
        Some(p) => Some(p),
        None => if available.len() > 0 {
            Some(available[0].clone())
        } else {
            None
        },
    }
}

/// What is known of a port on USB.
pub struct UsbInfo {
    pub product: Option<String>,
    pub manufacturer: Option<String>,
    pub serial_number: Option<String>,
}

/// A port found on the machine.
pub struct PortInfo {
    pub port_name: String,
    /// Present for a port on USB.
    pub usb: Option<UsbInfo>,
}

/// A field of a USB port as listed: its text, or `None` when it is unknown.
pub open spec fn field_text(field: Option<String>) -> Seq<char> {
    match field {
        Some(s) => s@,
        None => "None"@,
    }
}

/// The lines that list one port.
pub open spec fn port_text(port: PortInfo) -> Seq<char> {
    " - "@ + port.port_name@ + "\n"@ + match port.usb {
        Some(info) => "\tproduct: "@ + field_text(info.product) + "\n"@ + "\tmanufacturer: "@
            + field_text(info.manufacturer) + "\n"@ + "\tserial: "@ + field_text(
            info.serial_number,
        ) + "\n"@,
        None => Seq::empty(),
    }
}

/// The lines that list the ports, one after the other.
pub open spec fn ports_text(ports: Seq<PortInfo>) -> Seq<char>
    decreases ports.len(),
{
    if ports.len() == 0 {
        Seq::empty()
    } else {
        ports_text(ports.drop_last()) + port_text(ports.last())
    }
}

fn append_field(out: &mut String, label: &str, field: &Option<String>)
    ensures
        final(out)@ == old(out)@ + label@ + field_text(*field) + "\n"@,
{
    out.append(label);
    match field {
        Some(s) => out.append(s.as_str()),
        None => out.append("None"),
    }
    out.append("\n");
}

fn append_port(out: &mut String, port: &PortInfo)
    ensures
        final(out)@ == old(out)@ + port_text(*port),
{
    let ghost start = out@;
    out.append(" - ");
    out.append(port.port_name.as_str());
    out.append("\n");
    let ghost head = out@;
    assert(head == start + (" - "@ + port.port_name@ + "\n"@));
    match &port.usb {
        Some(info) => {
            append_field(out, "\tproduct: ", &info.product);
            append_field(out, "\tmanufacturer: ", &info.manufacturer);
            append_field(out, "\tserial: ", &info.serial_number);
            assert(out@ =~= head + ("\tproduct: "@ + field_text(info.product) + "\n"@
                + "\tmanufacturer: "@ + field_text(info.manufacturer) + "\n"@ + "\tserial: "@
                + field_text(info.serial_number) + "\n"@));
        },
        None => {
            assert(out@ =~= head + Seq::<char>::empty());
        },
    }
    assert(out@ =~= start + port_text(*port));
}

/// The listing of the ports found, as the `ls` command prints it.
pub fn describe_ports(ports: &Vec<PortInfo>) -> (r: String)
    ensures
        r@ == "Available ports:\n"@ + ports_text(ports@),
{
    let mut out = String::from_str("Available ports:\n");
    let n = ports.len();
    let mut i: usize = 0;
    assert(ports@.subrange(0, 0) =~= Seq::<PortInfo>::empty());
    while i < n
        invariant
            n == ports@.len(),
            i <= n,
            out@ == "Available ports:\n"@ + ports_text(ports@.subrange(0, i as int)),
        decreases n - i,
    {
        let ghost before = out@;
        append_port(&mut out, &ports[i]);
        proof {
            assert(ports@.subrange(0, i + 1).drop_last() =~= ports@.subrange(0, i as int));
            assert(out@ =~= before + port_text(ports@[i as int]));
        }
        i = i + 1;
    }
    assert(ports@.subrange(0, n as int) =~= ports@);
    out
}

/// The port asked for is the one chosen; with none asked for, the first of
/// the ports found is chosen, and no port only when none was found.
pub proof fn law_port_choice(port_opt: Option<String>, available: Seq<String>)
    ensures
        port_opt matches Some(p) ==> port_choice(port_opt, available) == Some(p),
        port_opt is None && available.len() > 0 ==> port_choice(port_opt, available) == Some(
            available[0],
        ),
        port_choice(port_opt, available) is None <==> (port_opt is None && available.len() == 0),
{
}

proof fn lemma_contains_middle(a: Seq<char>, b: Seq<char>, c: Seq<char>)
    ensures
        contains_run(a + b + c, b),
{
    assert((a + b + c).subrange(a.len() as int, (a.len() + b.len()) as int) =~= b);
}

/// What a listing line shows for a field of a USB port: its text, or
/// `None` when it is unknown.
pub open spec fn shown(field: Option<String>, label: Seq<char>) -> Seq<char> {
    label + match field {
        Some(s) => s@,
        None => "None"@,
    } + "\n"@
}

/// The listing of a port starts with its name; the listing of a port on USB
/// shows its product, manufacturer and serial number, each as it is known,
/// or `None` when it is not; a port not on USB is listed by its name alone.
pub proof fn law_port_listing(port: PortInfo)
    ensures
        (" - "@ + port.port_name@ + "\n"@).is_prefix_of(port_text(port)),
        port.usb is None ==> port_text(port) == " - "@ + port.port_name@ + "\n"@,
        port.usb matches Some(info) ==> contains_run(
            port_text(port),
            shown(info.product, "\tproduct: "@),
        ),
        port.usb matches Some(info) ==> contains_run(
            port_text(port),
            shown(info.manufacturer, "\tmanufacturer: "@),
        ),
        port.usb matches Some(info) ==> contains_run(
            port_text(port),
            shown(info.serial_number, "\tserial: "@),
        ),
{
    let head = " - "@ + port.port_name@ + "\n"@;
    match port.usb {
        Some(info) => {
            let p = shown(info.product, "\tproduct: "@);
            let m = shown(info.manufacturer, "\tmanufacturer: "@);
            let sn = shown(info.serial_number, "\tserial: "@);
            assert(p == "\tproduct: "@ + field_text(info.product) + "\n"@);
            assert(m == "\tmanufacturer: "@ + field_text(info.manufacturer) + "\n"@);
            assert(sn == "\tserial: "@ + field_text(info.serial_number) + "\n"@);
            assert(port_text(port) =~= head + p + m + sn);
            assert(port_text(port) =~= head + p + (m + sn));
            lemma_contains_middle(head, p, m + sn);
            assert(port_text(port) =~= (head + p) + m + sn);
            lemma_contains_middle(head + p, m, sn);
            assert(port_text(port) =~= (head + p + m) + sn + Seq::<char>::empty());
            lemma_contains_middle(head + p + m, sn, Seq::<char>::empty());
            assert(head.is_prefix_of(port_text(port)));
        },
        None => {
            assert(port_text(port) =~= head);
        },
    }
}

/// The listing of the ports starts with the header, and shows every port
/// found, in order: port `i`'s lines come right after those of the ports
/// before it.
pub proof fn law_ports_listed_in_order(ports: Seq<PortInfo>, i: int)
    requires
        0 <= i < ports.len(),
    ensures
        (ports_text(ports.take(i)) + port_text(ports[i])).is_prefix_of(ports_text(ports)),
        contains_run("Available ports:\n"@ + ports_text(ports), port_text(ports[i])),
    decreases ports.len(),
{
    if i == ports.len() - 1 {
        assert(ports.drop_last() =~= ports.take(i));
        assert(ports_text(ports) =~= ports_text(ports.take(i)) + port_text(ports[i]));
    } else {
        law_ports_listed_in_order(ports.drop_last(), i);
        assert(ports.drop_last().take(i) =~= ports.take(i));
        assert(ports.drop_last()[i] == ports[i]);
    }
    let pre = ports_text(ports.take(i)) + port_text(ports[i]);
    let all = ports_text(ports);
    let rest = all.subrange(pre.len() as int, all.len() as int);
    assert(all =~= ports_text(ports.take(i)) + port_text(ports[i]) + rest);
    assert("Available ports:\n"@ + all =~= ("Available ports:\n"@ + ports_text(ports.take(i)))
        + port_text(ports[i]) + rest);
    lemma_contains_middle(
        "Available ports:\n"@ + ports_text(ports.take(i)),
        port_text(ports[i]),
        rest,
    );
}

} // verus!
