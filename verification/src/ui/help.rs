//! Sizes and transfers in words, and the help.
use crate::util::text::{decimal, decimal_text, joined, opt_str, trim, trimmed};
use vstd::prelude::*;

verus! {

/// The help in Chinese.
pub const HELP_TEXT: &'static str = "快捷键与命令说明：

• Ctrl+X       → 智能贴入剪贴板文本/图片/文件
• Ctrl+C       → 复制当前选中消息
• Ctrl+Z       → 撤销输入框
• Ctrl+A       → 清空输入框
• Ctrl+I       → 生成邀请码
• /send <path> → 发送任意文件
• ←/→          → 移动光标（Ctrl+← 跳3字符，Ctrl+→ 跳至末尾）
• ↑/↓          → 列表选上下（Ctrl+↑ 跳 5 条，Ctrl+↓ 跳到底部）
• Tab          → 打开选中行的附件
• Esc          → 退出房间";

/// The help in English.
pub const HELP_TEXT_EN: &'static str = "Keyboard Shortcuts and Command Descriptions:

• Ctrl+X       → Smart paste clipboard text/image/files
• Ctrl+C       → Copy the currently selected message
• Ctrl+Z       → Undo in input box
• Ctrl+A       → Clear input box
• Ctrl+I       → Generate invite code
• /send <path> → Send any file as attachment
• ←/→          → Move cursor (Ctrl+← jump 3 characters, Ctrl+→ jump to end)
• ↑/↓          → Navigate list up/down (Ctrl+↑ jump 5 items, Ctrl+↓ jump to bottom)
• Tab          → Open the attachment in the selected row
• Esc          → Exit room";

/// Where a transfer stands.
#[derive(Debug, Clone, Copy, PartialEq, Eq, Structural)]
pub enum TransferStage {
    Active,
    Done,
    Failed,
}

/// Which way a transfer goes.
#[derive(Debug, Clone, Copy, PartialEq, Eq, Structural)]
pub enum TransferDirection {
    Sending,
    Receiving,
}

/// The quotient, rounded to the nearest whole number, and to the even one of two as near.
pub open spec fn rounded(a: nat, b: nat) -> nat {
    let q = a / b;
    let r = a % b;
    if 2 * r > b || (2 * r == b && q % 2 == 1) {
        q + 1
    } else {
        q
    }
}

/// The weight of the last of the 53 binary digits that a double keeps of a number.
pub open spec fn double_unit(n: nat) -> nat
    decreases n,
{
    if n < 0x20_0000_0000_0000 {
        1
    } else {
        2 * double_unit(n / 2)
    }
}

/// The double nearest to a number.
pub open spec fn as_double(n: nat) -> nat {
    rounded(n, double_unit(n)) * double_unit(n)
}

/// A number of units with one digit behind the point.
pub open spec fn in_units(size: nat, unit: nat) -> Seq<char> {
    let tenths = rounded(as_double(size) * 10, unit);
    decimal(tenths / 10) + "."@ + decimal(tenths % 10)
}

/// A size in words.
pub open spec fn size_text(size: u64) -> Seq<char> {
    if size < 1024 {
        decimal(size as nat) + " B"@
    } else if size < 1_048_576 {
        in_units(size as nat, 1024) + " KB"@
    } else if size < 1_073_741_824 {
        in_units(size as nat, 1_048_576) + " MB"@
    } else {
        in_units(size as nat, 1_073_741_824) + " GB"@
    }
}

fn rounded_of(a: u128, b: u128) -> (q: u128)
    requires
        0 < b <= 0x4000_0000,
        a <= 0xff_ffff_ffff_ffff_ffff,
    ensures
        q == rounded(a as nat, b as nat),
        q <= a + 1,
{
    let q: u128 = a / b;
    let r: u128 = a % b;
    proof {
        assert(q <= a) by (nonlinear_arith)
            requires
                q == a / b,
                b >= 1,
                a >= 0,
        ;
    }
    if 2 * r > b || (2 * r == b && q % 2 == 1) {
        q + 1
    } else {
        q
    }
}

fn double_unit_of(n: u64) -> (unit: u128)
    ensures
        unit == double_unit(n as nat),
        1 <= unit <= 4096,
{
    let mut unit: u128 = 1;
    let mut m: u64 = n;
    while m >= 0x20_0000_0000_0000
        invariant
            1 <= unit <= 4096,
            unit * m <= 0xffff_ffff_ffff_ffff,
            double_unit(n as nat) == unit * double_unit(m as nat),
        decreases m,
    {
        let ghost u0 = unit;
        let ghost m0 = m;
        proof {
            assert(u0 <= 2048) by (nonlinear_arith)
                requires
                    u0 * m0 <= 0xffff_ffff_ffff_ffff,
                    m0 >= 0x20_0000_0000_0000,
                    u0 >= 0,
            ;
            assert(2 * u0 * (m0 / 2) <= u0 * m0) by (nonlinear_arith)
                requires
                    u0 >= 0,
                    m0 >= 0,
            ;
            let d = double_unit((m0 / 2) as nat);
            assert(u0 * (2 * d) == (u0 * 2) * d) by (nonlinear_arith);
        }
        m = m / 2;
        unit = unit * 2;
    }
    proof {
        let d = double_unit(m as nat);
        assert(unit * d == unit) by (nonlinear_arith)
            requires
                d == 1,
        ;
    }
    unit
}

fn as_double_of(n: u64) -> (d: u128)
    ensures
        d == as_double(n as nat),
        d <= 0x1_0000_0000_0000_2000,
{
    let unit: u128 = double_unit_of(n);
    let q: u128 = rounded_of(n as u128, unit);
    proof {
        let a = n as int;
        let b = unit as int;
        assert((a / b) * b <= a) by (nonlinear_arith)
            requires
                b >= 1,
                a >= 0,
        ;
        assert(q * b <= (a / b) * b + b) by (nonlinear_arith)
            requires
                q <= a / b + 1,
                b >= 1,
        ;
    }
    q * unit
}

/// A number of units with one digit behind the point, and the name of the unit.
fn in_units_text(size: u64, unit: u128, name: &str) -> (text: String)
    requires
        0 < unit <= 0x4000_0000,
        unit >= 1024,
    ensures
        text@ == in_units(size as nat, unit as nat) + name@,
{
    let d: u128 = as_double_of(size);
    let tenths: u128 = rounded_of(d * 10, unit);
    proof {
        let a = d * 10;
        let b = unit as int;
        assert(a / b <= a / 1024) by (nonlinear_arith)
            requires
                b >= 1024,
                a >= 0,
        ;
    }
    let whole = decimal_text((tenths / 10) as u64);
    let digit = decimal_text((tenths % 10) as u64);
    let mut text = joined(whole.as_str(), ".");
    text.append(digit.as_str());
    text.append(name);
    text
}

/// A size in words.
pub fn format_file_size(size: u64) -> (text: String)
    ensures
        text@ == size_text(size),
{
    if size < 1024 {
        let n = decimal_text(size);
        joined(n.as_str(), " B")
    } else if size < 1_048_576 {
        in_units_text(size, 1024, " KB")
    } else if size < 1_073_741_824 {
        in_units_text(size, 1_048_576, " MB")
    } else {
        in_units_text(size, 1_073_741_824, " GB")
    }
}

/// How much of a transfer is done, in percent. The product stops at the largest number.
pub open spec fn percent(acked: usize, total: usize) -> nat {
    let hundredfold = acked * 100;
    let capped = if hundredfold > usize::MAX {
        usize::MAX as nat
    } else {
        hundredfold as nat
    };
    capped / (total as nat)
}

/// Where a transfer stands, in words.
pub open spec fn status_text(
    direction: TransferDirection,
    stage: TransferStage,
    acked: usize,
    total: usize,
) -> Seq<char> {
    match stage {
        TransferStage::Active => {
            let verb = match direction {
                TransferDirection::Sending => "sending "@,
                TransferDirection::Receiving => "receiving "@,
            };
            if total == 0 {
                verb + "0%"@
            } else {
                verb + decimal(percent(acked, total)) + "%"@
            }
        },
        TransferStage::Done => "done"@,
        TransferStage::Failed => "failed"@,
    }
}

/// A transfer in one line.
pub open spec fn transfer_text(
    file_name: Seq<char>,
    total_size: u64,
    direction: TransferDirection,
    stage: TransferStage,
    acked: usize,
    total: usize,
    detail: Option<Seq<char>>,
) -> Seq<char> {
    let line = status_text(
        direction,
        stage,
        acked,
        total,
    ) + " | "@ + file_name + " | "@ + size_text(
        total_size,
    );
    match detail {
        Some(d) => if trimmed(d).len() > 0 {
            line + " | "@ + d
        } else {
            line
        },
        None => line,
    }
}

fn status_of(
    direction: TransferDirection,
    stage: TransferStage,
    acked: usize,
    total: usize,
) -> (text: String)
    ensures
        text@ == status_text(direction, stage, acked, total),
{
    match stage {
        TransferStage::Active => {
            let verb = match direction {
                TransferDirection::Sending => "sending ",
                TransferDirection::Receiving => "receiving ",
            };
            if total == 0 {
                joined(verb, "0%")
            } else {
                let capped: usize = if acked as u128 * 100 > usize::MAX as u128 {
                    usize::MAX
                } else {
                    acked * 100
                };
                let n = decimal_text((capped / total) as u64);
                let mut text = joined(verb, n.as_str());
                text.append("%");
                text
            }
        },
        TransferStage::Done => "done".to_owned(),
        TransferStage::Failed => "failed".to_owned(),
    }
}

pub fn render_transfer_line(
    file_name: &str,
    total_size: u64,
    direction: TransferDirection,
    stage: TransferStage,
    acked_chunks: usize,
    total_chunks: usize,
    detail: Option<&str>,
) -> (line: String)
    ensures
        line@ == transfer_text(
            file_name@,
            total_size,
            direction,
            stage,
            acked_chunks,
            total_chunks,
            opt_str(detail),
        ),
{
    let status = status_of(direction, stage, acked_chunks, total_chunks);
    let size = format_file_size(total_size);
    let mut line = joined(status.as_str(), " | ");
    line.append(file_name);
    line.append(" | ");
    line.append(size.as_str());
    match detail {
        Some(d) => {
            let inner = trim(d);
            if inner.as_str().unicode_len() > 0 {
                line.append(" | ");
                line.append(d);
            }
        },
        None => {},
    }
    line
}

} // verus!
