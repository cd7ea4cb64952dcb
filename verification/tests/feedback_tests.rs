use voxalic::feedback::{diagnostics_text, feedback_text};

#[test]
fn diagnostics_read_the_report_fields() {
    assert_eq!(
        diagnostics_text("  Windows 11 Pro|10.0.22631|64-bit|zh-CN|China Standard Time|Intel i7|NVIDIA RTX|31.0\r\n"),
        "操作系统：Windows 11 Pro (10.0.22631) 64-bit\n系统语言：zh-CN\n时区：China Standard Time\nCPU：Intel i7\n显卡：NVIDIA RTX（驱动 31.0）"
    );
    assert_eq!(diagnostics_text(""), "操作系统：Windows (?) ?\n系统语言：?\n时区：?\nCPU：?\n显卡：?（驱动 ?）");
    assert_eq!(diagnostics_text("a||c"), "操作系统：a (?) c\n系统语言：?\n时区：?\nCPU：?\n显卡：?（驱动 ?）");
    assert_eq!(
        diagnostics_text("a|b|c|d|e|f|g|h|i"),
        "操作系统：a (b) c\n系统语言：d\n时区：e\nCPU：f\n显卡：g（驱动 h|i）"
    );
}

#[test]
fn feedback_mail_body() {
    let body = feedback_text("卡顿", "1.2.0", "DIAG", "x86_64", "2024-01-01 00:00:00 UTC", "C:\\Users\\a\\AppData\\Roaming\\com.voxalic.app");
    assert_eq!(
        body,
        "【VoxAlic 用户反馈】\n───────────────────\n卡顿\n───────────────────\n版本：v1.2.0\nDIAG\n架构：x86_64\n时间：2024-01-01 00:00:00 UTC\n\n📂 日志文件位于：C:\\Users\\a\\AppData\\Roaming\\com.voxalic.app\\voxalic.log\n（请附上日志文件，便于排查问题）"
    );
}
