use vstd::prelude::*;

use crate::rate_tracker::PacketRate;

verus! {

/// Type of DDoS attack detected.
#[derive(Debug, Clone, Copy, PartialEq, Eq, Hash, Structural)]
pub enum AttackType {
    SynFlood,
    UdpFlood,
    IcmpFlood,
    DnsAmplification,
}

impl AttackType {
    /// The human-readable name of the attack.
    pub open spec fn label(self) -> Seq<char> {
        match self {
            AttackType::SynFlood => "SYN Flood"@,
            AttackType::UdpFlood => "UDP Flood"@,
            AttackType::IcmpFlood => "ICMP Flood"@,
            AttackType::DnsAmplification => "DNS Amplification"@,
        }
    }

    /// The human-readable name of the attack, e.g. `"SYN Flood"`.
    pub fn to_string(&self) -> (s: String)
        ensures
            s@ == self.label(),
    {
        match self {
            AttackType::SynFlood => String::from_str("SYN Flood"),
            AttackType::UdpFlood => String::from_str("UDP Flood"),
            AttackType::IcmpFlood => String::from_str("ICMP Flood"),
            AttackType::DnsAmplification => String::from_str("DNS Amplification"),
        }
    }
}

/// Alert severity level, from least to most severe.
#[derive(Debug, Clone, Copy, PartialEq, Eq, PartialOrd, Ord, Hash, Structural)]
pub enum AlertSeverity {
    Low,
    Medium,
    High,
    Critical,
}

impl AlertSeverity {
    /// Position in the order Low < Medium < High < Critical.
    pub open spec fn rank(self) -> int {
        match self {
            AlertSeverity::Low => 0,
            AlertSeverity::Medium => 1,
            AlertSeverity::High => 2,
            AlertSeverity::Critical => 3,
        }
    }
}

/// Whether an alert is still active or has been resolved.
#[derive(Debug, Clone, Copy, PartialEq, Eq, Structural)]
pub enum AlertStatus {
    Active,
    Resolved,
}

/// A detection alert indicating a potential DDoS attack.  Times are
/// nanoseconds on the detection clock; the rate is the packet count that
/// raised or last refreshed the alert over its window.
#[derive(Debug, Clone)]
pub struct Alert {
    pub id: String,
    pub attack_type: AttackType,
    pub severity: AlertSeverity,
    pub source_ip: [u8; 4],
    pub packets_per_second: PacketRate,
    pub started_at: u64,
    pub last_seen_at: u64,
    pub status: AlertStatus,
}

/// The mathematical content of an alert.
pub struct AlertView {
    pub id: Seq<char>,
    pub attack_type: AttackType,
    pub severity: AlertSeverity,
    pub source_ip: [u8; 4],
    pub packets_per_second: PacketRate,
    pub started_at: u64,
    pub last_seen_at: u64,
    pub status: AlertStatus,
}

impl View for Alert {
    type V = AlertView;

    open spec fn view(&self) -> AlertView {
        AlertView {
            id: self.id@,
            attack_type: self.attack_type,
            severity: self.severity,
            source_ip: self.source_ip,
            packets_per_second: self.packets_per_second,
            started_at: self.started_at,
            last_seen_at: self.last_seen_at,
            status: self.status,
        }
    }
}

impl Alert {
    /// A field-by-field copy of the alert.
    pub fn duplicate(&self) -> (a: Alert)
        ensures
            a@ == self@,
    {
        Alert {
            id: self.id.clone(),
            attack_type: self.attack_type,
            severity: self.severity,
            source_ip: self.source_ip,
            packets_per_second: self.packets_per_second,
            started_at: self.started_at,
            last_seen_at: self.last_seen_at,
            status: self.status,
        }
    }
}

/// The decimal digit characters.
pub open spec fn digit_char(d: int) -> char {
    seq!['0', '1', '2', '3', '4', '5', '6', '7', '8', '9'][d]
}

/// The decimal representation of `n`, without leading zeros.
pub open spec fn decimal(n: nat) -> Seq<char>
    decreases n,
{
    if n < 10 {
        seq![digit_char(n as int)]
    } else {
        decimal(n / 10).push(digit_char((n % 10) as int))
    }
}

/// The decimal representation of `n`, padded with leading zeros to at
/// least `width` characters.
pub open spec fn zero_padded(n: nat, width: nat) -> Seq<char> {
    let d = decimal(n);
    if d.len() < width {
        Seq::new((width - d.len()) as nat, |i: int| '0') + d
    } else {
        d
    }
}

/// The identifier of the `n`-th alert: `alert-` and `n` padded to six digits.
pub open spec fn alert_id_text(n: nat) -> Seq<char> {
    "alert-"@ + zero_padded(n, 6)
}

/// The value of a decimal digit character (zero for any other character).
pub open spec fn digit_value(c: char) -> nat {
    if c == '1' {
        1
    } else if c == '2' {
        2
    } else if c == '3' {
        3
    } else if c == '4' {
        4
    } else if c == '5' {
        5
    } else if c == '6' {
        6
    } else if c == '7' {
        7
    } else if c == '8' {
        8
    } else if c == '9' {
        9
    } else {
        0
    }
}

/// The number a string of decimal digits stands for.
pub open spec fn digits_value(s: Seq<char>) -> nat
    decreases s.len(),
{
    if s.len() == 0 {
        0
    } else {
        digits_value(s.drop_last()) * 10 + digit_value(s.last())
    }
}

proof fn lemma_digit_value(d: int)
    requires
        0 <= d < 10,
    ensures
        digit_value(digit_char(d)) == d,
{
    let digits = seq!['0', '1', '2', '3', '4', '5', '6', '7', '8', '9'];
    assert(digits[0] == '0' && digits[1] == '1' && digits[2] == '2' && digits[3] == '3' && digits[4] == '4');
    assert(digits[5] == '5' && digits[6] == '6' && digits[7] == '7' && digits[8] == '8' && digits[9] == '9');
}

/// A number's decimal representation stands for the number.
proof fn lemma_decimal_value(n: nat)
    ensures
        digits_value(decimal(n)) == n,
    decreases n,
{
    let d = decimal(n);
    if n < 10 {
        lemma_digit_value(n as int);
        assert(d.drop_last() =~= Seq::<char>::empty());
        assert(digits_value(Seq::<char>::empty()) == 0);
        assert(d.last() == digit_char(n as int));
        assert(digits_value(d) == digits_value(d.drop_last()) * 10 + digit_value(d.last()));
    } else {
        lemma_decimal_value(n / 10);
        lemma_digit_value((n % 10) as int);
        assert(d.drop_last() =~= decimal(n / 10));
        assert(d.last() == digit_char((n % 10) as int));
        assert(digits_value(d) == digits_value(d.drop_last()) * 10 + digit_value(d.last()));
        assert(n == (n / 10) * 10 + n % 10);
    }
}

/// Leading zeros do not change the number a digit string stands for.
proof fn lemma_leading_zeros_value(k: nat, s: Seq<char>)
    ensures
        digits_value(Seq::new(k, |i: int| '0') + s) == digits_value(s),
    decreases s.len(), k,
{
    let zeros = Seq::new(k, |i: int| '0');
    if s.len() == 0 {
        assert(zeros + s =~= zeros);
        if k > 0 {
            lemma_leading_zeros_value((k - 1) as nat, s);
            assert(zeros.drop_last() =~= Seq::new((k - 1) as nat, |i: int| '0') + s);
        }
    } else {
        lemma_leading_zeros_value(k, s.drop_last());
        assert((zeros + s).drop_last() =~= zeros + s.drop_last());
    }
}

/// Different alert numbers give different alert identifiers: the digits
/// after `alert-` stand for the number.
pub proof fn lemma_alert_ids_distinct(n: nat, m: nat)
    requires
        n != m,
    ensures
        alert_id_text(n) != alert_id_text(m),
{
    reveal_strlit("alert-");
    lemma_alert_id_number(n);
    lemma_alert_id_number(m);
}

proof fn lemma_alert_id_number(n: nat)
    ensures
        digits_value(alert_id_text(n).subrange(6, alert_id_text(n).len() as int)) == n,
{
    reveal_strlit("alert-");
    let z = zero_padded(n, 6);
    assert(alert_id_text(n).subrange(6, alert_id_text(n).len() as int) =~= z);
    lemma_decimal_value(n);
    let d = decimal(n);
    if d.len() < 6 {
        lemma_leading_zeros_value((6 - d.len()) as nat, d);
    }
}

fn digit_str(d: u64) -> (s: &'static str)
    requires
        d < 10,
    ensures
        s@ == seq![digit_char(d as int)],
{
    proof {
        reveal_strlit("0");
        reveal_strlit("1");
        reveal_strlit("2");
        reveal_strlit("3");
        reveal_strlit("4");
        reveal_strlit("5");
        reveal_strlit("6");
        reveal_strlit("7");
        reveal_strlit("8");
        reveal_strlit("9");
    }
    let s = match d {
        0 => "0",
        1 => "1",
        2 => "2",
        3 => "3",
        4 => "4",
        5 => "5",
        6 => "6",
        7 => "7",
        8 => "8",
        _ => "9",
    };
    assert(s@ =~= seq![digit_char(d as int)]);
    s
}

/// Format the identifier of the `n`-th alert (`format!("alert-{:06}", n)`).
pub fn format_alert_id(n: u64) -> (s: String)
    ensures
        s@ == alert_id_text(n as nat),
{
    let mut rest: u64 = n / 10;
    let mut digits = String::from_str(digit_str(n % 10));
    assert(digits@ =~= seq![digit_char((n % 10) as int)]);
    while rest > 0
        invariant
            rest <= n / 10,
            rest > 0 ==> decimal(n as nat) == decimal(rest as nat) + digits@,
            rest == 0 ==> decimal(n as nat) == digits@,
        decreases rest,
    {
        let d = rest % 10;
        let prefix = String::from_str(digit_str(d));
        let ghost old_digits = digits@;
        digits = prefix.concat(digits.as_str());
        proof {
            if rest >= 10 {
                assert(decimal(rest as nat) == decimal((rest / 10) as nat).push(digit_char(d as int)));
                assert(decimal((rest / 10) as nat) + digits@ =~= decimal((rest / 10) as nat).push(
                    digit_char(d as int),
                ) + old_digits);
            } else {
                assert(decimal(rest as nat) == seq![digit_char(d as int)]);
            }
        }
        rest = rest / 10;
    }
    let ghost width_digits = digits@;
    let mut count: usize = digits.as_str().unicode_len();
    while count < 6
        invariant
            count == digits@.len(),
            digits@.len() <= 6 ==> digits@ == Seq::new((digits@.len() - width_digits.len()) as nat, |i: int| '0')
                + width_digits,
            width_digits == decimal(n as nat),
            width_digits.len() <= digits@.len(),
            digits@.len() > 6 ==> digits@ == width_digits,
        decreases 6 - count,
    {
        let ghost old_digits = digits@;
        digits = String::from_str("0").concat(digits.as_str());
        proof {
            reveal_strlit("0");
            assert(digits@ =~= Seq::new((digits@.len() - width_digits.len()) as nat, |i: int| '0')
                + width_digits);
        }
        count = count + 1;
    }
    let mut id = String::from_str("alert-");
    id.append(digits.as_str());
    assert(digits@ =~= zero_padded(n as nat, 6));
    id
}

} // verus!
