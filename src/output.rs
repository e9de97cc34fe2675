use vstd::prelude::*;
use vstd::string::StringExecFns;

verus! {

/// What each printed line holds: exactly one of three forms.
#[derive(Debug, Clone, Copy, PartialEq, Eq, Structural)]
pub enum OutputMode {
    /// The hostname, a space, and the ip.
    HostAndIp,
    /// The hostname alone.
    HostsOnly,
    /// The ip alone.
    IpsOnly,
}

/// The output mode that the two flags select; asking for hosts only and for
/// ips only at once selects none.
pub fn output_mode(hosts_only: bool, ips_only: bool) -> (r: Option<OutputMode>)
    ensures
        r is None <==> hosts_only && ips_only,
        !hosts_only && !ips_only ==> r == Some(OutputMode::HostAndIp),
        hosts_only && !ips_only ==> r == Some(OutputMode::HostsOnly),
        !hosts_only && ips_only ==> r == Some(OutputMode::IpsOnly),
{
    if hosts_only && ips_only {
        None
    } else if hosts_only {
        Some(OutputMode::HostsOnly)
    } else if ips_only {
        Some(OutputMode::IpsOnly)
    } else {
        Some(OutputMode::HostAndIp)
    }
}

/// The text of one output line for a record, without its line end.
pub open spec fn line_text(mode: OutputMode, hostname: Seq<char>, ip: Seq<char>) -> Seq<char> {
    match mode {
        OutputMode::HostAndIp => hostname + " "@ + ip,
        OutputMode::HostsOnly => hostname,
        OutputMode::IpsOnly => ip,
    }
}

/// Formats one output line for a record.
pub fn format_line(mode: OutputMode, hostname: &str, ip: &str) -> (r: String)
    ensures
        r@ == line_text(mode, hostname@, ip@),
{
    match mode {
        OutputMode::HostAndIp => {
            let mut r = String::from_str(hostname);
            r.append(" ");
            r.append(ip);
            r
        },
        OutputMode::HostsOnly => String::from_str(hostname),
        OutputMode::IpsOnly => String::from_str(ip),
    }
}

} // verus!
