//! Building the platform commands that reconfigure an adapter, and the
//! subnet-mask arithmetic they need.
//!
//! Nothing here touches the system: each function only computes the
//! commands (program and arguments), file contents and messages that the
//! surrounding process then executes. Validation and the exact texts are
//! verified; running the commands, checking their output and falling back
//! stay with the caller.

use vstd::prelude::*;
use crate::model::NetworkConfig;
use crate::text::{
    chars_to_string, join_strings, push_dec_u64, spec_dec, spec_join, spec_split, split_chars,
    to_chars,
};

verus! {

/// The number of set bits in `x`: the low bit, plus those of the value
/// shifted right once.
pub open spec fn spec_ones(x: u32) -> nat
    decreases x,
{
    if x == 0 {
        0
    } else {
        (x % 2) as nat + spec_ones(x / 2)
    }
}

proof fn lemma_ones_le(x: u32)
    ensures
        spec_ones(x) <= x,
    decreases x,
{
    if x != 0 {
        lemma_ones_le(x / 2);
    }
}

fn popcount(x: u32) -> (r: u32)
    ensures
        r == spec_ones(x),
    decreases x,
{
    if x == 0 {
        0
    } else {
        proof {
            assert(x & 1 == x % 2) by (bit_vector);
            assert(x >> 1 == x / 2) by (bit_vector);
            lemma_ones_le(x / 2);
        }
        (x & 1) + popcount(x >> 1)
    }
}

/// `c` is a decimal digit.
pub open spec fn is_digit(c: char) -> bool {
    48 <= c as u32 <= 57
}

/// Every character of `s` is a decimal digit.
pub open spec fn all_digits(s: Seq<char>) -> bool {
    forall|i: int| 0 <= i < s.len() ==> is_digit(#[trigger] s[i])
}

/// The value of a digit string, most significant first.
pub open spec fn digits_value(s: Seq<char>) -> nat
    decreases s.len(),
{
    if s.len() == 0 {
        0
    } else {
        (digits_value(s.drop_last()) * 10 + (s.last() as u32 - 48)) as nat
    }
}

/// How an octet is read from a mask segment: an optional leading `+`,
/// then one or more decimal digits whose value fits in a byte; anything
/// else is no octet.
pub open spec fn spec_parse_u8(s: Seq<char>) -> Option<u8> {
    let body = if s.len() > 0 && s[0] == '+' {
        s.drop_first()
    } else {
        s
    };
    if body.len() > 0 && all_digits(body) && digits_value(body) <= 255 {
        Some(digits_value(body) as u8)
    } else {
        None
    }
}

proof fn lemma_digits_prefix_monotone(s: Seq<char>, i: int)
    requires
        0 <= i <= s.len(),
        all_digits(s),
    ensures
        digits_value(s.take(i)) <= digits_value(s),
    decreases s.len() - i,
{
    if i < s.len() {
        assert(s.take(i + 1).drop_last() =~= s.take(i));
        assert(s.take(i + 1).last() == s[i]);
        assert(digits_value(s.take(i + 1)) == digits_value(s.take(i)) * 10 + (s[i] as u32 - 48));
        lemma_digits_prefix_monotone(s, i + 1);
    } else {
        assert(s.take(i) =~= s);
    }
}

/// The value of the digit body of `v`, if `v` is an octet.
fn parse_u8_chars(v: &Vec<char>) -> (r: Option<u8>)
    ensures
        r == spec_parse_u8(v@),
{
    let ghost whole = v@;
    let mut start: usize = 0;
    if v.len() > 0 && v[0] == '+' {
        start = 1;
    }
    let ghost body = if whole.len() > 0 && whole[0] == '+' {
        whole.drop_first()
    } else {
        whole
    };
    proof {
        assert(whole.skip(start as int) =~= body);
    }
    if start >= v.len() {
        proof {
            assert(body.len() == 0);
        }
        return None;
    }
    let mut acc: u32 = 0;
    let mut i: usize = start;
    while i < v.len()
        invariant
            start <= i <= v@.len(),
            v@ == whole,
            start <= 1,
            body == whole.skip(start as int),
            body == (if whole.len() > 0 && whole[0] == '+' {
                whole.drop_first()
            } else {
                whole
            }),
            acc == digits_value(body.take(i - start)),
            acc <= 255,
            all_digits(body.take(i - start)),
        decreases v@.len() - i,
    {
        let c = v[i];
        let cu = c as u32;
        if cu < 48 || cu > 57 {
            proof {
                assert(body[i - start] == whole[i as int]);
                assert(!is_digit(body[i - start]));
                assert(!all_digits(body));
                assert(spec_parse_u8(whole) is None);
            }
            return None;
        }
        let d = cu - 48;
        let next = acc * 10 + d;
        proof {
            assert(body.take(i - start + 1).drop_last() =~= body.take(i - start));
            assert(body.take(i - start + 1).last() == body[i - start]);
            assert(body[i - start] == whole[i as int]);
            assert(digits_value(body.take(i - start + 1)) == acc * 10 + d);
            assert(all_digits(body.take(i - start + 1)));
        }
        if next > 255 {
            proof {
                if all_digits(body) {
                    lemma_digits_prefix_monotone(body, i - start + 1);
                    assert(digits_value(body) > 255);
                }
                assert(spec_parse_u8(whole) is None);
            }
            return None;
        }
        acc = next;
        i = i + 1;
    }
    proof {
        assert(body.take(body.len() as int) =~= body);
        assert(body.len() > 0);
        assert(spec_parse_u8(whole) == Some(acc as u8));
    }
    Some(acc as u8)
}

/// The octets successfully read from the segments, in order; segments
/// that are no octet are dropped.
pub open spec fn spec_octets(parts: Seq<Seq<char>>) -> Seq<u8>
    decreases parts.len(),
{
    if parts.len() == 0 {
        Seq::empty()
    } else {
        let rest = spec_octets(parts.drop_first());
        match spec_parse_u8(parts[0]) {
            Some(b) => seq![b] + rest,
            None => rest,
        }
    }
}

proof fn lemma_octets_push(parts: Seq<Seq<char>>, p: Seq<char>)
    ensures
        spec_octets(parts.push(p)) == (match spec_parse_u8(p) {
            Some(b) => spec_octets(parts).push(b),
            None => spec_octets(parts),
        }),
    decreases parts.len(),
{
    let u = parts.push(p);
    assert(spec_octets(Seq::<Seq<char>>::empty()) == Seq::<u8>::empty());
    if parts.len() == 0 {
        assert(u[0] == p);
        assert(u.drop_first() =~= Seq::<Seq<char>>::empty());
        assert(spec_octets(parts) == Seq::<u8>::empty());
        match spec_parse_u8(p) {
            Some(b) => {
                assert(spec_octets(u) =~= seq![b]);
                assert(spec_octets(parts).push(b) =~= seq![b]);
            },
            None => {
                assert(spec_octets(u) =~= Seq::<u8>::empty());
            },
        }
    } else {
        assert(u[0] == parts[0]);
        assert(u.drop_first() =~= parts.drop_first().push(p));
        lemma_octets_push(parts.drop_first(), p);
        let ro = spec_octets(parts.drop_first());
        match spec_parse_u8(p) {
            Some(b) => {
                match spec_parse_u8(parts[0]) {
                    Some(h) => {
                        assert(spec_octets(u) == seq![h] + ro.push(b));
                        assert(spec_octets(parts).push(b) =~= seq![h] + ro.push(b));
                    },
                    None => {},
                }
            },
            None => {},
        }
    }
}

/// The 32-bit mask with the four octets as its bytes, most significant
/// first (recommended only for four octets).
pub open spec fn spec_mask_value(p: Seq<u8>) -> u32 {
    ((p[0] as u32) << 24) | ((p[1] as u32) << 16) | ((p[2] as u32) << 8) | (p[3] as u32)
}

/// How a dotted mask is read as a prefix length: split on `.`, read the
/// octets, and count the set bits of the 32-bit mask they form; anything
/// that does not read as exactly four octets falls back to 24.
pub open spec fn spec_subnet_mask_to_prefix(mask: Seq<char>) -> u32 {
    let octets = spec_octets(spec_split(mask, '.'));
    if octets.len() != 4 {
        24
    } else {
        spec_ones(spec_mask_value(octets)) as u32
    }
}

/// The CIDR prefix length encoded by a dotted subnet mask: the number of
/// set bits of its 32-bit value, or 24 where the mask does not read as
/// four octets.
pub fn subnet_mask_to_prefix(mask: &str) -> (r: u32)
    ensures
        r == spec_subnet_mask_to_prefix(mask@),
{
    let chars = to_chars(mask);
    let parts = split_chars(&chars, '.');
    let ghost pdv = parts.deep_view();
    proof {
        assert forall|t: int| 0 <= t < pdv.len() implies pdv[t] == parts@[t]@ by {
            assert(pdv[t] =~= parts@[t]@);
        }
    }
    let mut octets: Vec<u8> = Vec::new();
    let mut i: usize = 0;
    proof {
        assert(pdv.take(0) =~= Seq::<Seq<char>>::empty());
        assert(octets@ =~= spec_octets(pdv.take(0)));
    }
    while i < parts.len()
        invariant
            i <= parts@.len(),
            pdv == parts.deep_view(),
            pdv.len() == parts@.len(),
            forall|t: int| 0 <= t < pdv.len() ==> pdv[t] == parts@[t]@,
            octets@ == spec_octets(pdv.take(i as int)),
        decreases parts@.len() - i,
    {
        proof {
            assert(pdv.take(i + 1) =~= pdv.take(i as int).push(pdv[i as int]));
            lemma_octets_push(pdv.take(i as int), pdv[i as int]);
        }
        match parse_u8_chars(&parts[i]) {
            Some(b) => {
                octets.push(b);
            },
            None => {
            },
        }
        i = i + 1;
    }
    proof {
        assert(pdv.take(pdv.len() as int) =~= pdv);
    }
    if octets.len() != 4 {
        return 24;
    }
    let value: u32 = ((octets[0] as u32) << 24u32) | ((octets[1] as u32) << 16u32) | ((
    octets[2] as u32) << 8u32) | (octets[3] as u32);
    proof {
        assert(value == spec_mask_value(octets@));
    }
    popcount(value)
}

/// The 32-bit mask of a prefix length between 0 and 32: the top
/// `prefix_len` bits set.
pub open spec fn spec_prefix_mask(p: u32) -> u32 {
    if p == 0 {
        0
    } else {
        !0u32 << ((32 - p as int) as u32)
    }
}

/// The dotted notation of a 32-bit value, byte by byte.
pub open spec fn spec_dotted_quad(m: u32) -> Seq<char> {
    spec_dec(((m >> 24) & 0xFF) as nat) + seq!['.'] + spec_dec(((m >> 16) & 0xFF) as nat)
        + seq!['.'] + spec_dec(((m >> 8) & 0xFF) as nat) + seq!['.'] + spec_dec((m & 0xFF) as nat)
}

/// The dotted subnet mask of a prefix length: the top `prefix_len` bits
/// set, written byte by byte. A length over 32 falls back to the common
/// `255.255.255.0`.
pub fn prefix_to_subnet_mask(prefix_len: u32) -> (r: String)
    ensures
        prefix_len > 32 ==> r@ == "255.255.255.0"@,
        prefix_len <= 32 ==> r@ == spec_dotted_quad(spec_prefix_mask(prefix_len)),
{
    if prefix_len > 32 {
        return String::from_str("255.255.255.0");
    }
    let mask: u32 = if prefix_len == 0 {
        0
    } else {
        !0u32 << (32 - prefix_len)
    };
    proof {
        assert(mask == spec_prefix_mask(prefix_len));
    }
    let mut v: Vec<char> = Vec::new();
    push_dec_u64(&mut v, ((mask >> 24) & 0xFF) as u64);
    v.push('.');
    push_dec_u64(&mut v, ((mask >> 16) & 0xFF) as u64);
    v.push('.');
    push_dec_u64(&mut v, ((mask >> 8) & 0xFF) as u64);
    v.push('.');
    push_dec_u64(&mut v, (mask & 0xFF) as u64);
    proof {
        assert(v@ =~= spec_dotted_quad(mask));
    }
    chars_to_string(&v)
}

/// The same dotted-mask computation, as the platform-specific caller on
/// Linux names it.
pub fn prefix_to_subnet_mask_linux(prefix_len: u32) -> (r: String)
    ensures
        prefix_len > 32 ==> r@ == "255.255.255.0"@,
        prefix_len <= 32 ==> r@ == spec_dotted_quad(spec_prefix_mask(prefix_len)),
{
    prefix_to_subnet_mask(prefix_len)
}

/// One command for the surrounding process to run: a program and its
/// arguments, exactly as they go to the operating system.
pub struct ShellCommand {
    pub program: String,
    pub args: Vec<String>,
}

/// Ghost image of a [`ShellCommand`].
#[verifier::ext_equal]
pub struct CommandView {
    pub program: Seq<char>,
    pub args: Seq<Seq<char>>,
}

impl View for ShellCommand {
    type V = CommandView;

    open spec fn view(&self) -> CommandView {
        CommandView { program: self.program@, args: self.args.deep_view() }
    }
}

impl DeepView for ShellCommand {
    type V = CommandView;

    open spec fn deep_view(&self) -> CommandView {
        self.view()
    }
}

/// A file the plan writes whole, replacing its contents.
pub struct FileWrite {
    pub path: String,
    pub contents: String,
}

/// Ghost image of a [`FileWrite`].
#[verifier::ext_equal]
pub struct FileWriteView {
    pub path: Seq<char>,
    pub contents: Seq<char>,
}

impl View for FileWrite {
    type V = FileWriteView;

    open spec fn view(&self) -> FileWriteView {
        FileWriteView { path: self.path@, contents: self.contents@ }
    }
}

impl DeepView for FileWrite {
    type V = FileWriteView;

    open spec fn deep_view(&self) -> FileWriteView {
        self.view()
    }
}

/// Everything one reconfiguration asks the surrounding process to do:
/// commands in order, an optional fallback to run if the first command
/// fails, files to write, and the message to report on success.
pub struct ConfigPlan {
    pub commands: Vec<ShellCommand>,
    pub fallback: Option<ShellCommand>,
    pub file_writes: Vec<FileWrite>,
    pub success_message: String,
}

/// Ghost image of a [`ConfigPlan`].
#[verifier::ext_equal]
pub struct PlanView {
    pub commands: Seq<CommandView>,
    pub fallback: Option<CommandView>,
    pub file_writes: Seq<FileWriteView>,
    pub success_message: Seq<char>,
}

impl View for ConfigPlan {
    type V = PlanView;

    open spec fn view(&self) -> PlanView {
        PlanView {
            commands: self.commands.deep_view(),
            fallback: self.fallback.deep_view(),
            file_writes: self.file_writes.deep_view(),
            success_message: self.success_message@,
        }
    }
}

/// The platform whose tools the plan is written for.
pub enum Platform {
    Windows,
    Linux,
    MacOs,
}

/// A Windows command, run through the shell.
pub open spec fn spec_win_cmd(s: Seq<char>) -> CommandView {
    CommandView { program: "cmd"@, args: seq!["/C"@, s] }
}

/// A Linux shell command line.
pub open spec fn spec_sh_cmd(s: Seq<char>) -> CommandView {
    CommandView { program: "sh"@, args: seq!["-c"@, s] }
}

/// The `add dns` tail of the chained Windows DNS command, one clause per
/// server after the first.
pub open spec fn spec_win_dns_chain(name: Seq<char>, dns: Seq<Seq<char>>, i: int) -> Seq<char>
    decreases dns.len() - i,
{
    if i < 0 || i >= dns.len() {
        Seq::empty()
    } else {
        " & netsh interface ip add dns \""@ + name + "\" "@ + dns[i] + spec_win_dns_chain(
            name,
            dns,
            i + 1,
        )
    }
}

/// The one chained Windows command that sets the primary DNS server and
/// adds the rest.
pub open spec fn spec_win_dns_chained(name: Seq<char>, dns: Seq<Seq<char>>) -> Seq<char> {
    "netsh interface ip set dns \""@ + name + "\" static "@ + dns[0] + spec_win_dns_chain(
        name,
        dns,
        1,
    )
}

/// The joined servers with every space turned into a newline and the
/// next `nameserver` keyword, as the Linux resolver file wants them.
pub open spec fn spec_nl_expand(s: Seq<char>) -> Seq<char> {
    spec_join(spec_split(s, ' '), "\nnameserver "@)
}

/// The Linux command line that overwrites the resolver configuration.
pub open spec fn spec_linux_dns_cmdline(dns: Seq<Seq<char>>) -> Seq<char> {
    "echo 'nameserver "@ + spec_nl_expand(spec_join(dns, " "@))
        + "' | sudo tee /etc/resolv.conf > /dev/null"@
}

/// The command that applies a DNS list to one adapter, per platform.
pub open spec fn spec_dns_command(
    name: Seq<char>,
    dns: Seq<Seq<char>>,
    platform: Platform,
) -> CommandView {
    match platform {
        Platform::Windows => spec_win_cmd(spec_win_dns_chained(name, dns)),
        Platform::Linux => spec_sh_cmd(spec_linux_dns_cmdline(dns)),
        Platform::MacOs => CommandView {
            program: "sudo"@,
            args: seq!["networksetup"@, "-setdnsservers"@, name, spec_join(dns, " "@)],
        },
    }
}

/// `s` with every space expanded to a new resolver line.
fn nl_expand(s: &str) -> (r: String)
    ensures
        r@ == spec_nl_expand(s@),
{
    let chars = to_chars(s);
    let parts = split_chars(&chars, ' ');
    let ghost pdv = parts.deep_view();
    let mut strs: Vec<String> = Vec::new();
    let mut i: usize = 0;
    proof {
        assert(strs.deep_view() =~= pdv.take(0));
    }
    while i < parts.len()
        invariant
            i <= parts@.len(),
            pdv == parts.deep_view(),
            pdv.len() == parts@.len(),
            strs.deep_view() == pdv.take(i as int),
        decreases parts@.len() - i,
    {
        let ghost before = strs.deep_view();
        strs.push(chars_to_string(&parts[i]));
        proof {
            assert(pdv[i as int] =~= parts@[i as int]@);
            assert(strs.deep_view() =~~= before.push(pdv[i as int]));
            assert(strs.deep_view() =~= pdv.take(i + 1));
        }
        i = i + 1;
    }
    proof {
        assert(pdv.take(pdv.len() as int) =~= pdv);
    }
    join_strings(&strs, "\nnameserver ")
}

/// The chained Windows DNS command for `name` and a non-empty list.
fn win_dns_chained(name: &str, dns: &Vec<String>) -> (r: String)
    requires
        dns@.len() >= 1,
    ensures
        r@ == spec_win_dns_chained(name@, dns.deep_view()),
{
    let ghost dv = dns.deep_view();
    let mut m = String::from_str("netsh interface ip set dns \"");
    m.append(name);
    m.append("\" static ");
    m.append(dns[0].as_str());
    proof {
        assert(dv[0] == dns@[0]@);
        assert(spec_win_dns_chained(name@, dv) =~= m@ + spec_win_dns_chain(name@, dv, 1));
    }
    let mut i: usize = 1;
    while i < dns.len()
        invariant
            1 <= i <= dns@.len(),
            dv == dns.deep_view(),
            dv.len() == dns@.len(),
            spec_win_dns_chained(name@, dv) =~= m@ + spec_win_dns_chain(name@, dv, i as int),
        decreases dns@.len() - i,
    {
        let ghost before = m@;
        m.append(" & netsh interface ip add dns \"");
        m.append(name);
        m.append("\" ");
        m.append(dns[i].as_str());
        proof {
            assert(dv[i as int] == dns@[i as int]@);
            assert(spec_win_dns_chain(name@, dv, i as int) =~= " & netsh interface ip add dns \""@
                + name@ + "\" "@ + dv[i as int] + spec_win_dns_chain(name@, dv, i + 1));
            assert(m@ =~= before + (" & netsh interface ip add dns \""@ + name@ + "\" "@
                + dv[i as int]));
            assert(spec_win_dns_chained(name@, dv) =~= m@ + spec_win_dns_chain(
                name@,
                dv,
                i + 1,
            ));
        }
        i = i + 1;
    }
    proof {
        assert(spec_win_dns_chain(name@, dv, dv.len() as int) =~= Seq::<char>::empty());
        assert(m@ =~= spec_win_dns_chained(name@, dv));
    }
    m
}

/// The command that sets `dns_servers` on the adapter named
/// `interface_name`, for the given platform. On Windows an empty server
/// list is rejected, as the chained command needs a primary server; the
/// other platforms pass the empty list through.
pub fn set_interface_dns(interface_name: &str, dns_servers: &Vec<String>, platform: Platform) -> (r:
    Result<ShellCommand, String>)
    ensures
        platform is Windows && dns_servers@.len() == 0 ==> (match r {
            Err(e) => e@ == "DNS servers list is empty"@,
            Ok(_) => false,
        }),
        !(platform is Windows && dns_servers@.len() == 0) ==> (match r {
            Ok(c) => c@ =~~= spec_dns_command(
                interface_name@,
                dns_servers.deep_view(),
                platform,
            ),
            Err(_) => false,
        }),
{
    let ghost dv = dns_servers.deep_view();
    match platform {
        Platform::Windows => {
            if dns_servers.len() == 0 {
                return Err(String::from_str("DNS servers list is empty"));
            }
            let line = win_dns_chained(interface_name, dns_servers);
            let mut args: Vec<String> = Vec::new();
            args.push(String::from_str("/C"));
            args.push(line);
            let c = ShellCommand { program: String::from_str("cmd"), args };
            proof {
                assert(c@.args =~~= seq!["/C"@, spec_win_dns_chained(interface_name@, dv)]);
                assert(c@ =~~= spec_dns_command(interface_name@, dv, Platform::Windows));
            }
            Ok(c)
        },
        Platform::Linux => {
            let joined = join_strings(dns_servers, " ");
            let expanded = nl_expand(joined.as_str());
            let mut line = String::from_str("echo 'nameserver ");
            line.append(expanded.as_str());
            line.append("' | sudo tee /etc/resolv.conf > /dev/null");
            let mut args: Vec<String> = Vec::new();
            args.push(String::from_str("-c"));
            args.push(line);
            let c = ShellCommand { program: String::from_str("sh"), args };
            proof {
                assert(c@.args[1] =~= spec_linux_dns_cmdline(dv));
                assert(c@.args =~~= seq!["-c"@, spec_linux_dns_cmdline(dv)]);
                assert(c@ =~~= spec_dns_command(interface_name@, dv, Platform::Linux));
            }
            Ok(c)
        },
        Platform::MacOs => {
            let joined = join_strings(dns_servers, " ");
            let mut args: Vec<String> = Vec::new();
            args.push(String::from_str("networksetup"));
            args.push(String::from_str("-setdnsservers"));
            args.push(String::from_str(interface_name));
            args.push(joined);
            let c = ShellCommand { program: String::from_str("sudo"), args };
            proof {
                assert(c@.args =~~= seq!["networksetup"@, "-setdnsservers"@, interface_name@,
                    spec_join(dv, " "@)]);
                assert(c@ =~~= spec_dns_command(interface_name@, dv, Platform::MacOs));
            }
            Ok(c)
        },
    }
}

/// The Windows command that puts the adapter's address on DHCP.
pub open spec fn spec_w_addr_dhcp(n: Seq<char>) -> Seq<char> {
    "netsh interface ip set address name=\""@ + n + "\" source=dhcp"@
}

/// The Windows command that puts the adapter's DNS on DHCP.
pub open spec fn spec_w_dns_dhcp(n: Seq<char>) -> Seq<char> {
    "netsh interface ip set dns name=\""@ + n + "\" source=dhcp"@
}

/// The Windows command that sets the primary DNS server.
pub open spec fn spec_w_dns_set(n: Seq<char>, d: Seq<char>) -> Seq<char> {
    "netsh interface ip set dns name=\""@ + n + "\" static "@ + d
}

/// The Windows command that adds one secondary DNS server at `idx`.
pub open spec fn spec_w_dns_add(n: Seq<char>, d: Seq<char>, idx: nat) -> Seq<char> {
    "netsh interface ip add dns name=\""@ + n + "\" "@ + d + " index="@ + spec_dec(idx)
}

/// The `add dns` commands for the servers from position `j` on; the
/// server at position `j` gets index `j + 1`.
pub open spec fn spec_win_add_cmds(n: Seq<char>, dns: Seq<Seq<char>>, j: int) -> Seq<CommandView>
    decreases dns.len() - j,
{
    if j < 1 || j >= dns.len() {
        Seq::empty()
    } else {
        seq![spec_win_cmd(spec_w_dns_add(n, dns[j], (j + 1) as nat))] + spec_win_add_cmds(
            n,
            dns,
            j + 1,
        )
    }
}

/// The Windows commands that set a whole non-empty DNS list: the primary
/// first, then one add per secondary.
pub open spec fn spec_win_dns_cmds(n: Seq<char>, dns: Seq<Seq<char>>) -> Seq<CommandView> {
    seq![spec_win_cmd(spec_w_dns_set(n, dns[0]))] + spec_win_add_cmds(n, dns, 1)
}

/// The Windows command that sets a static address, with the gateway only
/// when one was given.
pub open spec fn spec_w_addr_static(
    n: Seq<char>,
    ip: Seq<char>,
    mask: Seq<char>,
    gw: Seq<char>,
) -> Seq<char> {
    "netsh interface ip set address name=\""@ + n + "\" static "@ + ip + " "@ + mask + (if gw.len()
        == 0 {
        Seq::<char>::empty()
    } else {
        " "@ + gw
    })
}

/// The Linux command that flushes the adapter and adds the static
/// address with its prefix length.
pub open spec fn spec_l_ip_cmd(n: Seq<char>, ip: Seq<char>, prefix: u32) -> Seq<char> {
    "ip addr flush dev "@ + n + " && ip addr add "@ + ip + "/"@ + spec_dec(prefix as nat)
        + " dev "@ + n
}

/// The Linux command that sets the default route.
pub open spec fn spec_l_gw_cmd(gw: Seq<char>) -> Seq<char> {
    "ip route add default via "@ + gw
}

/// The resolver file contents for a non-empty DNS list, one line per
/// server.
pub open spec fn spec_resolv_contents(dns: Seq<Seq<char>>) -> Seq<char> {
    "nameserver "@ + spec_join(dns, "\nnameserver "@)
}

/// `prefix + name + suffix`, the shape of most command lines here.
fn concat3(prefix: &str, name: &str, suffix: &str) -> (r: String)
    ensures
        r@ == prefix@ + name@ + suffix@,
{
    let mut m = String::from_str(prefix);
    m.append(name);
    m.append(suffix);
    m
}

/// `prefix + name`, the shape of the success messages.
fn concat2(prefix: &str, name: &str) -> (r: String)
    ensures
        r@ == prefix@ + name@,
{
    let mut m = String::from_str(prefix);
    m.append(name);
    m
}

/// A Windows command line wrapped for the shell.
fn make_win_cmd(line: String) -> (c: ShellCommand)
    ensures
        c@ == spec_win_cmd(line@),
{
    let mut args: Vec<String> = Vec::new();
    args.push(String::from_str("/C"));
    args.push(line);
    let c = ShellCommand { program: String::from_str("cmd"), args };
    proof {
        assert(c@ =~~= spec_win_cmd(c.args@[1]@));
    }
    c
}

/// A Linux command line wrapped for the shell.
fn make_sh_cmd(line: String) -> (c: ShellCommand)
    ensures
        c@ == spec_sh_cmd(line@),
{
    let mut args: Vec<String> = Vec::new();
    args.push(String::from_str("-c"));
    args.push(line);
    let c = ShellCommand { program: String::from_str("sh"), args };
    proof {
        assert(c@ =~~= spec_sh_cmd(c.args@[1]@));
    }
    c
}

/// The Windows commands for one non-empty DNS list.
fn win_dns_cmds(name: &str, dns: &Vec<String>) -> (r: Vec<ShellCommand>)
    requires
        dns@.len() >= 1,
    ensures
        r.deep_view() == spec_win_dns_cmds(name@, dns.deep_view()),
{
    let ghost dv = dns.deep_view();
    let mut r: Vec<ShellCommand> = Vec::new();
    let mut line = String::from_str("netsh interface ip set dns name=\"");
    line.append(name);
    line.append("\" static ");
    line.append(dns[0].as_str());
    proof {
        assert(dv[0] == dns@[0]@);
        assert(line@ =~= spec_w_dns_set(name@, dv[0]));
    }
    r.push(make_win_cmd(line));
    proof {
        assert(r.deep_view() =~~= seq![spec_win_cmd(spec_w_dns_set(name@, dv[0]))]);
        assert(spec_win_dns_cmds(name@, dv) =~= r.deep_view() + spec_win_add_cmds(
            name@,
            dv,
            1,
        ));
    }
    let mut j: usize = 1;
    while j < dns.len()
        invariant
            1 <= j <= dns@.len(),
            dv == dns.deep_view(),
            dv.len() == dns@.len(),
            spec_win_dns_cmds(name@, dv) =~= r.deep_view() + spec_win_add_cmds(
                name@,
                dv,
                j as int,
            ),
        decreases dns@.len() - j,
    {
        let mut line = String::from_str("netsh interface ip add dns name=\"");
        line.append(name);
        line.append("\" ");
        line.append(dns[j].as_str());
        line.append(" index=");
        let mut digits: Vec<char> = Vec::new();
        push_dec_u64(&mut digits, (j + 1) as u64);
        let dec = chars_to_string(&digits);
        line.append(dec.as_str());
        proof {
            assert(dv[j as int] == dns@[j as int]@);
            assert(line@ =~= spec_w_dns_add(name@, dv[j as int], (j + 1) as nat));
        }
        let ghost before = r.deep_view();
        r.push(make_win_cmd(line));
        proof {
            assert(r.deep_view() =~~= before.push(spec_win_cmd(spec_w_dns_add(
                name@,
                dv[j as int],
                (j + 1) as nat,
            ))));
            assert(spec_win_add_cmds(name@, dv, j as int) =~= seq![spec_win_cmd(spec_w_dns_add(
                name@,
                dv[j as int],
                (j + 1) as nat,
            ))] + spec_win_add_cmds(name@, dv, j + 1));
            assert(spec_win_dns_cmds(name@, dv) =~= r.deep_view() + spec_win_add_cmds(
                name@,
                dv,
                j + 1,
            ));
        }
        j = j + 1;
    }
    proof {
        assert(spec_win_add_cmds(name@, dv, dv.len() as int) =~= Seq::<CommandView>::empty());
        assert(r.deep_view() =~~= spec_win_dns_cmds(name@, dv));
    }
    r
}

/// The Windows plan for one configuration request: switch the address to
/// DHCP or a static one, set or release the DNS servers, and flush the
/// resolver cache; the surrounding process runs the commands in order.
/// A static request without address or mask is rejected.
pub fn set_network_config_windows(config: &NetworkConfig) -> (r: Result<ConfigPlan, String>)
    ensures
        config@.dhcp ==> (match r {
            Ok(p) => p@.commands =~~= seq![spec_win_cmd(spec_w_addr_dhcp(config@.interface_name))]
                + (if config@.dns.len() > 0 {
                spec_win_dns_cmds(config@.interface_name, config@.dns)
            } else {
                seq![spec_win_cmd(spec_w_dns_dhcp(config@.interface_name))]
            }) + seq![spec_win_cmd("ipconfig /flushdns"@)] && p@.fallback is None
                && p@.file_writes.len() == 0 && p@.success_message == "DHCP enabled for "@
                + config@.interface_name,
            Err(_) => false,
        }),
        !config@.dhcp && (config@.ip_address.len() == 0 || config@.subnet_mask.len() == 0) ==> (
        match r {
            Err(e) => e@ == "IP address and subnet mask are required for static configuration"@,
            Ok(_) => false,
        }),
        !config@.dhcp && config@.ip_address.len() > 0 && config@.subnet_mask.len() > 0 ==> (match r {
            Ok(p) => p@.commands =~~= seq![spec_win_cmd(spec_w_addr_static(
                config@.interface_name,
                config@.ip_address,
                config@.subnet_mask,
                config@.gateway,
            ))] + (if config@.dns.len() > 0 {
                spec_win_dns_cmds(config@.interface_name, config@.dns)
            } else {
                Seq::<CommandView>::empty()
            }) + seq![spec_win_cmd("ipconfig /flushdns"@)] && p@.fallback is None
                && p@.file_writes.len() == 0 && p@.success_message == "Static IP configured for "@
                + config@.interface_name,
            Err(_) => false,
        }),
{
    let n = config.interface_name.as_str();
    let mut commands: Vec<ShellCommand> = Vec::new();
    let message: String;
    if config.dhcp {
        let line = concat3("netsh interface ip set address name=\"", n, "\" source=dhcp");
        proof {
            assert(line@ =~= spec_w_addr_dhcp(config@.interface_name));
        }
        commands.push(make_win_cmd(line));
        if config.dns.len() > 0 {
            let ghost before = commands.deep_view();
            let mut dns_cmds = win_dns_cmds(n, &config.dns);
            let ghost dcv = dns_cmds.deep_view();
            let mut k: usize = 0;
            while k < dns_cmds.len()
                invariant
                    k <= dns_cmds@.len(),
                    dcv.len() == dns_cmds@.len(),
                    dcv == dns_cmds.deep_view(),
                    commands.deep_view() == before + dcv.take(k as int),
                decreases dns_cmds@.len() - k,
            {
                let ghost cb = commands.deep_view();
                let c = ShellCommand {
                    program: dns_cmds[k].program.clone(),
                    args: crate::text::clone_strings(&dns_cmds[k].args),
                };
                proof {
                    assert(c@ =~~= dcv[k as int]);
                }
                commands.push(c);
                proof {
                    assert(commands.deep_view() =~~= cb.push(dcv[k as int]));
                    assert(commands.deep_view() =~= before + dcv.take(k + 1));
                }
                k = k + 1;
            }
            proof {
                assert(dcv.take(dcv.len() as int) =~= dcv);
            }
        } else {
            let line = concat3("netsh interface ip set dns name=\"", n, "\" source=dhcp");
            proof {
                assert(line@ =~= spec_w_dns_dhcp(config@.interface_name));
            }
            commands.push(make_win_cmd(line));
        }
        message = concat2("DHCP enabled for ", n);
    } else {
        if config.ip_address.as_str().is_empty() || config.subnet_mask.as_str().is_empty() {
            return Err(
                String::from_str("IP address and subnet mask are required for static configuration"),
            );
        }
        let mut line = String::from_str("netsh interface ip set address name=\"");
        line.append(n);
        line.append("\" static ");
        line.append(config.ip_address.as_str());
        line.append(" ");
        line.append(config.subnet_mask.as_str());
        if !config.gateway.as_str().is_empty() {
            line.append(" ");
            line.append(config.gateway.as_str());
        }
        proof {
            assert(line@ =~= spec_w_addr_static(
                config@.interface_name,
                config@.ip_address,
                config@.subnet_mask,
                config@.gateway,
            ));
        }
        commands.push(make_win_cmd(line));
        if config.dns.len() > 0 {
            let ghost before = commands.deep_view();
            let mut dns_cmds = win_dns_cmds(n, &config.dns);
            let ghost dcv = dns_cmds.deep_view();
            let mut k: usize = 0;
            while k < dns_cmds.len()
                invariant
                    k <= dns_cmds@.len(),
                    dcv.len() == dns_cmds@.len(),
                    dcv == dns_cmds.deep_view(),
                    commands.deep_view() == before + dcv.take(k as int),
                decreases dns_cmds@.len() - k,
            {
                let ghost cb = commands.deep_view();
                let c = ShellCommand {
                    program: dns_cmds[k].program.clone(),
                    args: crate::text::clone_strings(&dns_cmds[k].args),
                };
                proof {
                    assert(c@ =~~= dcv[k as int]);
                }
                commands.push(c);
                proof {
                    assert(commands.deep_view() =~~= cb.push(dcv[k as int]));
                    assert(commands.deep_view() =~= before + dcv.take(k + 1));
                }
                k = k + 1;
            }
            proof {
                assert(dcv.take(dcv.len() as int) =~= dcv);
            }
        }
        message = concat2("Static IP configured for ", n);
    }
    let ghost before_flush = commands.deep_view();
    commands.push(make_win_cmd(String::from_str("ipconfig /flushdns")));
    proof {
        assert(commands.deep_view() =~~= before_flush.push(spec_win_cmd("ipconfig /flushdns"@)));
    }
    let plan = ConfigPlan { commands, fallback: None, file_writes: Vec::new(), success_message: message };
    proof {
        assert(plan@.file_writes =~~= Seq::<FileWriteView>::empty());
    }
    Ok(plan)
}

/// The Linux plan for one configuration request. DHCP asks the network
/// manager to switch the connection and bring it up, with a raw DHCP
/// client as the fallback; a static request flushes and re-adds the
/// address, optionally sets the default route, and rewrites the resolver
/// file. A static request without address or mask is rejected.
pub fn set_network_config_linux(config: &NetworkConfig) -> (r: Result<ConfigPlan, String>)
    ensures
        config@.dhcp ==> (match r {
            Ok(p) => p@.commands =~~= seq![
                CommandView {
                    program: "nmcli"@,
                    args: seq!["con"@, "mod"@, config@.interface_name, "ipv4.method"@, "auto"@],
                },
                CommandView {
                    program: "nmcli"@,
                    args: seq!["con"@, "up"@, config@.interface_name],
                },
            ] && p@.fallback =~~= Some(
                CommandView { program: "dhclient"@, args: seq![config@.interface_name] },
            ) && p@.file_writes.len() == 0 && p@.success_message == "DHCP enabled for "@
                + config@.interface_name,
            Err(_) => false,
        }),
        !config@.dhcp && (config@.ip_address.len() == 0 || config@.subnet_mask.len() == 0) ==> (
        match r {
            Err(e) => e@ == "IP address and subnet mask are required"@,
            Ok(_) => false,
        }),
        !config@.dhcp && config@.ip_address.len() > 0 && config@.subnet_mask.len() > 0 ==> (match r {
            Ok(p) => p@.commands =~~= seq![spec_sh_cmd(spec_l_ip_cmd(
                config@.interface_name,
                config@.ip_address,
                spec_subnet_mask_to_prefix(config@.subnet_mask),
            ))] + (if config@.gateway.len() > 0 {
                seq![spec_sh_cmd(spec_l_gw_cmd(config@.gateway))]
            } else {
                Seq::<CommandView>::empty()
            }) && p@.fallback is None && p@.file_writes =~~= (if config@.dns.len() > 0 {
                seq![FileWriteView {
                    path: "/etc/resolv.conf"@,
                    contents: spec_resolv_contents(config@.dns),
                }]
            } else {
                Seq::<FileWriteView>::empty()
            }) && p@.success_message == "Static IP configured for "@ + config@.interface_name,
            Err(_) => false,
        }),
{
    let n = config.interface_name.as_str();
    if config.dhcp {
        let mut commands: Vec<ShellCommand> = Vec::new();
        let mut args1: Vec<String> = Vec::new();
        args1.push(String::from_str("con"));
        args1.push(String::from_str("mod"));
        args1.push(String::from_str(n));
        args1.push(String::from_str("ipv4.method"));
        args1.push(String::from_str("auto"));
        commands.push(ShellCommand { program: String::from_str("nmcli"), args: args1 });
        let mut args2: Vec<String> = Vec::new();
        args2.push(String::from_str("con"));
        args2.push(String::from_str("up"));
        args2.push(String::from_str(n));
        commands.push(ShellCommand { program: String::from_str("nmcli"), args: args2 });
        let mut args3: Vec<String> = Vec::new();
        args3.push(String::from_str(n));
        let fallback = ShellCommand { program: String::from_str("dhclient"), args: args3 };
        let message = concat2("DHCP enabled for ", n);
        let plan = ConfigPlan {
            commands,
            fallback: Some(fallback),
            file_writes: Vec::new(),
            success_message: message,
        };
        proof {
            assert(plan@.commands[0].args =~~= seq!["con"@, "mod"@, config@.interface_name,
                "ipv4.method"@, "auto"@]);
            assert(plan@.commands[1].args =~~= seq!["con"@, "up"@, config@.interface_name]);
            assert(plan@.commands =~~= seq![
                CommandView {
                    program: "nmcli"@,
                    args: seq!["con"@, "mod"@, config@.interface_name, "ipv4.method"@, "auto"@],
                },
                CommandView {
                    program: "nmcli"@,
                    args: seq!["con"@, "up"@, config@.interface_name],
                },
            ]);
            assert(plan@.fallback =~~= Some(
                CommandView { program: "dhclient"@, args: seq![config@.interface_name] },
            ));
            assert(plan@.file_writes =~~= Seq::<FileWriteView>::empty());
        }
        return Ok(plan);
    }
    if config.ip_address.as_str().is_empty() || config.subnet_mask.as_str().is_empty() {
        return Err(String::from_str("IP address and subnet mask are required"));
    }
    let prefix = subnet_mask_to_prefix(config.subnet_mask.as_str());
    let mut line = String::from_str("ip addr flush dev ");
    line.append(n);
    line.append(" && ip addr add ");
    line.append(config.ip_address.as_str());
    line.append("/");
    let mut digits: Vec<char> = Vec::new();
    push_dec_u64(&mut digits, prefix as u64);
    let dec = chars_to_string(&digits);
    line.append(dec.as_str());
    line.append(" dev ");
    line.append(n);
    proof {
        assert(line@ =~= spec_l_ip_cmd(
            config@.interface_name,
            config@.ip_address,
            spec_subnet_mask_to_prefix(config@.subnet_mask),
        ));
    }
    let mut commands: Vec<ShellCommand> = Vec::new();
    commands.push(make_sh_cmd(line));
    if !config.gateway.as_str().is_empty() {
        let gw_line = concat2("ip route add default via ", config.gateway.as_str());
        proof {
            assert(gw_line@ =~= spec_l_gw_cmd(config@.gateway));
        }
        let ghost before = commands.deep_view();
        commands.push(make_sh_cmd(gw_line));
        proof {
            assert(commands.deep_view() =~~= before.push(spec_sh_cmd(spec_l_gw_cmd(
                config@.gateway,
            ))));
        }
    }
    let mut file_writes: Vec<FileWrite> = Vec::new();
    if config.dns.len() > 0 {
        let mut contents = String::from_str("nameserver ");
        let joined = join_strings(&config.dns, "\nnameserver ");
        contents.append(joined.as_str());
        proof {
            assert(contents@ =~= spec_resolv_contents(config@.dns));
        }
        file_writes.push(
            FileWrite { path: String::from_str("/etc/resolv.conf"), contents },
        );
    }
    let message = concat2("Static IP configured for ", n);
    let plan = ConfigPlan { commands, fallback: None, file_writes, success_message: message };
    proof {
        if config@.dns.len() > 0 {
            assert(plan@.file_writes =~~= seq![FileWriteView {
                path: "/etc/resolv.conf"@,
                contents: spec_resolv_contents(config@.dns),
            }]);
        } else {
            assert(plan@.file_writes =~~= Seq::<FileWriteView>::empty());
        }
    }
    Ok(plan)
}

/// The macOS plan for one configuration request: DHCP or a manual
/// address through the network-setup tool, with the DNS servers set in
/// one call when any were given; a missing gateway is passed as the
/// tool's word `empty`. A static request without address or mask is
/// rejected.
pub fn set_network_config_macos(config: &NetworkConfig) -> (r: Result<ConfigPlan, String>)
    ensures
        config@.dhcp ==> (match r {
            Ok(p) => p@.commands =~~= seq![
                CommandView {
                    program: "networksetup"@,
                    args: seq!["-setdhcp"@, config@.interface_name],
                },
            ] && p@.fallback is None && p@.file_writes.len() == 0 && p@.success_message
                == "DHCP enabled for "@ + config@.interface_name,
            Err(_) => false,
        }),
        !config@.dhcp && (config@.ip_address.len() == 0 || config@.subnet_mask.len() == 0) ==> (
        match r {
            Err(e) => e@ == "IP address and subnet mask are required"@,
            Ok(_) => false,
        }),
        !config@.dhcp && config@.ip_address.len() > 0 && config@.subnet_mask.len() > 0 ==> (match r {
            Ok(p) => p@.commands =~~= seq![
                CommandView {
                    program: "networksetup"@,
                    args: seq!["-setmanual"@, config@.interface_name, config@.ip_address,
                        config@.subnet_mask, (if config@.gateway.len() == 0 {
                        "empty"@
                    } else {
                        config@.gateway
                    })],
                },
            ] + (if config@.dns.len() > 0 {
                seq![CommandView {
                    program: "networksetup"@,
                    args: seq!["-setdnsservers"@, config@.interface_name] + config@.dns,
                }]
            } else {
                Seq::<CommandView>::empty()
            }) && p@.fallback is None && p@.file_writes.len() == 0 && p@.success_message
                == "Static IP configured for "@ + config@.interface_name,
            Err(_) => false,
        }),
{
    let n = config.interface_name.as_str();
    if config.dhcp {
        let mut args: Vec<String> = Vec::new();
        args.push(String::from_str("-setdhcp"));
        args.push(String::from_str(n));
        let mut commands: Vec<ShellCommand> = Vec::new();
        commands.push(ShellCommand { program: String::from_str("networksetup"), args });
        let message = concat2("DHCP enabled for ", n);
        let plan = ConfigPlan {
            commands,
            fallback: None,
            file_writes: Vec::new(),
            success_message: message,
        };
        proof {
            assert(plan@.commands[0].args =~~= seq!["-setdhcp"@, config@.interface_name]);
            assert(plan@.commands =~~= seq![
                CommandView {
                    program: "networksetup"@,
                    args: seq!["-setdhcp"@, config@.interface_name],
                },
            ]);
            assert(plan@.file_writes =~~= Seq::<FileWriteView>::empty());
        }
        return Ok(plan);
    }
    if config.ip_address.as_str().is_empty() || config.subnet_mask.as_str().is_empty() {
        return Err(String::from_str("IP address and subnet mask are required"));
    }
    let router: String = if config.gateway.as_str().is_empty() {
        String::from_str("empty")
    } else {
        config.gateway.clone()
    };
    let mut args: Vec<String> = Vec::new();
    args.push(String::from_str("-setmanual"));
    args.push(String::from_str(n));
    args.push(config.ip_address.clone());
    args.push(config.subnet_mask.clone());
    args.push(router);
    let mut commands: Vec<ShellCommand> = Vec::new();
    commands.push(ShellCommand { program: String::from_str("networksetup"), args });
    proof {
        assert(commands.deep_view() =~~= seq![
            CommandView {
                program: "networksetup"@,
                args: seq!["-setmanual"@, config@.interface_name, config@.ip_address,
                    config@.subnet_mask, (if config@.gateway.len() == 0 {
                    "empty"@
                } else {
                    config@.gateway
                })],
            },
        ]);
    }
    if config.dns.len() > 0 {
        let mut dargs: Vec<String> = Vec::new();
        dargs.push(String::from_str("-setdnsservers"));
        dargs.push(String::from_str(n));
        let ghost head = dargs.deep_view();
        let mut k: usize = 0;
        proof {
            assert(head =~~= seq!["-setdnsservers"@, config@.interface_name]);
            assert(config@.dns.take(0) =~= Seq::<Seq<char>>::empty());
            assert(dargs.deep_view() =~= head + config@.dns.take(0));
        }
        while k < config.dns.len()
            invariant
                k <= config.dns@.len(),
                config@.dns.len() == config.dns@.len(),
                config@.dns == config.dns.deep_view(),
                dargs.deep_view() == head + config@.dns.take(k as int),
            decreases config.dns@.len() - k,
        {
            let ghost before = dargs.deep_view();
            dargs.push(config.dns[k].clone());
            proof {
                assert(config@.dns[k as int] == config.dns@[k as int]@);
                assert(dargs.deep_view() =~~= before.push(config@.dns[k as int]));
                assert(config@.dns.take(k + 1) =~= config@.dns.take(k as int).push(
                    config@.dns[k as int],
                ));
                assert(dargs.deep_view() =~= head + config@.dns.take(k + 1));
            }
            k = k + 1;
        }
        proof {
            assert(config@.dns.take(config@.dns.len() as int) =~= config@.dns);
        }
        let ghost before = commands.deep_view();
        commands.push(ShellCommand { program: String::from_str("networksetup"), args: dargs });
        proof {
            assert(commands.deep_view() =~~= before.push(CommandView {
                program: "networksetup"@,
                args: seq!["-setdnsservers"@, config@.interface_name] + config@.dns,
            }));
        }
    }
    let message = concat2("Static IP configured for ", n);
    let plan = ConfigPlan { commands, fallback: None, file_writes: Vec::new(), success_message: message };
    proof {
        assert(plan@.file_writes =~~= Seq::<FileWriteView>::empty());
    }
    Ok(plan)
}

} // verus!
