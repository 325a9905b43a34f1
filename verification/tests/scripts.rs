use win_timer::tasks::{
    build_create_script, build_delete_command, build_list_script, build_trigger_expr,
    build_verb_command, create_task_outcome, datetime_arg, datetime_literal, parse_datetime,
    powershell_outcome, CreateTaskRequest, Schedule,
};
use win_timer::text::{has, ps_quote, trim_str};

fn req(ty: &str, at: Option<&str>, every: Option<u32>) -> CreateTaskRequest {
    CreateTaskRequest {
        name: "TestTask".into(),
        program: "notepad.exe".into(),
        arguments: None,
        description: None,
        schedule: Schedule {
            ty: ty.into(),
            at: at.map(|s| s.to_string()),
            every_minutes: every,
        },
    }
}

#[test]
fn ps_quote_escapes_single_quotes() {
    assert_eq!(ps_quote("abc"), "'abc'");
    assert_eq!(ps_quote("it's"), "'it''s'");
    // Doubling the quotes keeps the literal from closing early.
    assert_eq!(
        ps_quote("'; Remove-Item C:\\ -Recurse; '"),
        "'''; Remove-Item C:\\ -Recurse; '''"
    );
}

#[test]
fn ps_quote_neutralizes_injection_in_task_name() {
    let evil = "x'; Start-Process calc; #";
    let script = build_delete_command(evil, None);
    // The quote is doubled, so the literal does not close early.
    assert!(script.contains("'x''; Start-Process calc; #'"));
    assert!(!script.contains("'x'; Start-Process"));
}

#[test]
fn verb_command_uses_default_root_path() {
    assert_eq!(
        build_verb_command("run", "Foo", None).unwrap(),
        "Start-ScheduledTask -TaskPath '\\' -TaskName 'Foo' -ErrorAction Stop"
    );
    assert_eq!(
        build_verb_command("disable", "Foo", Some("")).unwrap(),
        "Disable-ScheduledTask -TaskPath '\\' -TaskName 'Foo' -ErrorAction Stop"
    );
    assert_eq!(
        build_verb_command("enable", "Foo", Some("\\My")).unwrap(),
        "Enable-ScheduledTask -TaskPath '\\My' -TaskName 'Foo' -ErrorAction Stop"
    );
}

#[test]
fn unknown_verb_is_rejected() {
    let err = build_verb_command("nuke", "Foo", None).unwrap_err();
    assert_eq!(err, "未知操作: nuke");
}

#[test]
fn delete_command_shape() {
    assert_eq!(
        build_delete_command("Foo", None),
        "$ErrorActionPreference='Stop'\nUnregister-ScheduledTask -TaskPath '\\' -TaskName 'Foo' -Confirm:$false"
    );
}

#[test]
fn list_script_uses_inputobject_so_single_task_is_an_array() {
    // Through a pipeline a single row would come out as an object.
    let s = build_list_script(false);
    assert!(s.contains("ConvertTo-Json -InputObject $rows"));
    assert!(!s.contains("$rows | ConvertTo-Json"));
    assert!(s.contains("-TaskPath '\\'"));
    // scope=all has no TaskPath filter
    let a = build_list_script(true);
    assert!(!a.contains("-TaskPath"));
}

#[test]
fn create_script_once_and_daily_need_a_start_time() {
    assert!(build_create_script(&req("once", None, None))
        .unwrap_err()
        .contains("一次性任务需要开始时间"));
    assert!(build_create_script(&req("daily", None, None))
        .unwrap_err()
        .contains("每日任务需要开始时间"));
}

#[test]
fn create_script_once_shape() {
    let s = build_create_script(&req("once", Some("2026-09-06T12:30"), None)).unwrap();
    assert!(s.contains("New-ScheduledTaskAction -Execute 'notepad.exe'"));
    // The expression after -At must be in parentheses.
    assert!(s.contains("New-ScheduledTaskTrigger -Once -At ([datetime]::ParseExact('2026-09-06T12:30','yyyy-MM-ddTHH:mm',[Globalization.CultureInfo]::InvariantCulture))"));
    assert!(s.contains("Register-ScheduledTask -TaskName 'TestTask'"));
    assert!(s.contains("-Force"));
    // Without arguments or a description neither optional switch appears.
    assert!(!s.contains(" -Argument"));
    assert!(!s.contains(" -Description"));
}

#[test]
fn create_script_daily_shape() {
    let s = build_create_script(&req("daily", Some("2026-09-06T12:30"), None)).unwrap();
    assert!(s.contains(
        "New-ScheduledTaskTrigger -Daily -At ([datetime]::ParseExact('2026-09-06T12:30'"
    ));
}

#[test]
fn create_script_interval_defaults_to_now() {
    let s = build_create_script(&req("interval", None, Some(5))).unwrap();
    assert!(s.contains("-At ([datetime]::Now)"));
    assert!(s.contains("New-TimeSpan -Seconds 300"));
    assert!(s.contains("-RepetitionDuration (New-TimeSpan -Days 3650)"));
}

#[test]
fn create_script_interval_with_explicit_start() {
    let s = build_create_script(&req("interval", Some("2026-09-06 08:00"), Some(1))).unwrap();
    // "yyyy-MM-dd HH:mm" is normalized to the form with T
    assert!(s.contains("ParseExact('2026-09-06T08:00'"));
    assert!(s.contains("New-TimeSpan -Seconds 60"));
}

#[test]
fn create_script_rejects_bad_interval_and_type() {
    assert_eq!(
        build_create_script(&req("interval", None, Some(0))).unwrap_err(),
        "间隔(分钟)必须大于 0"
    );
    let e = build_create_script(&req("weekly", Some("2026-09-06T12:30"), None)).unwrap_err();
    assert_eq!(e, "不支持的调度类型: weekly");
}

#[test]
fn create_script_validates_name_and_program() {
    let mut r = req("once", Some("2026-09-06T12:30"), None);
    r.name = "   ".into();
    assert_eq!(build_create_script(&r).unwrap_err(), "任务名称不能为空");
    r.name = "Ok".into();
    r.program = "".into();
    assert_eq!(build_create_script(&r).unwrap_err(), "要执行的程序不能为空");
}

#[test]
fn create_script_accepts_space_separated_datetime() {
    let s = build_create_script(&req("once", Some("2026-09-06 12:30"), None)).unwrap();
    assert!(s.contains("'2026-09-06T12:30'"));
}

#[test]
fn create_script_rejects_malformed_datetime() {
    let e = build_create_script(&req("once", Some("2026-09-06"), None)).unwrap_err();
    assert!(e.starts_with("开始时间格式应为 yyyy-MM-ddTHH:mm"));
}

#[test]
fn list_script_is_valid_powershell_syntax() {
    // Braces must pair up, and none may be doubled.
    let s = build_list_script(false);
    let opens = s.chars().filter(|c| *c == '{').count();
    let closes = s.chars().filter(|c| *c == '}').count();
    assert_eq!(opens, closes, "花括号不成对，脚本无法解析");
    assert!(!s.contains("{{"));
    assert!(!s.contains("}}"));
}

// ---------------------------------------------------------------------------
// Further cases
// ---------------------------------------------------------------------------

#[test]
fn list_script_scopes_differ_only_by_the_root_filter() {
    let root = build_list_script(false);
    let all = build_list_script(true);
    assert_eq!(root.replacen(" -TaskPath '\\'", "", 1), all);
    assert!(all.starts_with("\n$ErrorActionPreference = 'Stop'\ntry {"));
    assert!(all.contains("$all = @(Get-ScheduledTask)"));
    assert!(root.contains("$all = @(Get-ScheduledTask -TaskPath '\\')"));
    assert!(all.ends_with("  exit 1\n}\n"));
    let opens = all.chars().filter(|c| *c == '{').count();
    let closes = all.chars().filter(|c| *c == '}').count();
    assert_eq!(opens, closes);
}

#[test]
fn ps_quote_edge_cases() {
    assert_eq!(ps_quote(""), "''");
    assert_eq!(ps_quote("'"), "''''");
    assert_eq!(ps_quote("任务 'x'"), "'任务 ''x'''");
}

#[test]
fn trim_follows_unicode_white_space() {
    assert_eq!(trim_str("  a b \t\n"), "a b");
    assert_eq!(trim_str("\u{3000}名\u{a0}"), "名");
    assert_eq!(trim_str("\u{2028}\u{85}"), "");
    assert_eq!(trim_str("x\u{200b}"), "x\u{200b}");
    for s in ["", " x ", "\u{2000}a\u{200a}", "\u{1680}b\u{202f}", "c\u{205f}", "\u{b}\u{c}d"] {
        assert_eq!(trim_str(s), s.trim());
    }
}

#[test]
fn has_needs_non_blank_text() {
    assert!(!has(&None));
    assert!(!has(&Some("  \t".to_string())));
    assert!(has(&Some(" a ".to_string())));
}

#[test]
fn datetime_expressions() {
    assert_eq!(
        datetime_literal("2026-01-02T03:04"),
        "[datetime]::ParseExact('2026-01-02T03:04','yyyy-MM-ddTHH:mm',[Globalization.CultureInfo]::InvariantCulture)"
    );
    assert_eq!(
        datetime_arg("2026-01-02T03:04"),
        "([datetime]::ParseExact('2026-01-02T03:04','yyyy-MM-ddTHH:mm',[Globalization.CultureInfo]::InvariantCulture))"
    );
}

#[test]
fn parse_datetime_normalizes_and_checks_shape() {
    assert_eq!(parse_datetime("  2026-09-06 12:30 ").unwrap(), "2026-09-06T12:30");
    assert_eq!(parse_datetime("2026-09-06T12:30").unwrap(), "2026-09-06T12:30");
    // Once normalized, a value is accepted again as itself.
    let once = parse_datetime(" 2026-09-06 08:00").unwrap();
    assert_eq!(parse_datetime(&once).unwrap(), once);
    assert_eq!(
        parse_datetime("2026-09-06").unwrap_err(),
        "开始时间格式应为 yyyy-MM-ddTHH:mm，收到: 2026-09-06"
    );
    // Only the form yyyy-MM-ddTHH:mm is accepted.
    assert!(parse_datetime("éé345678T01234").is_err());
    assert!(parse_datetime("2026-09-06X12:30").is_err());
    assert!(parse_datetime("2026/09/06T12:30").is_err());
    assert!(parse_datetime("2026-09-06T12-30").is_err());
    assert!(parse_datetime("abcd-ef-ghTij:kl").is_err());
    assert!(parse_datetime("2026-09-06T12:300").is_err());
    assert_eq!(parse_datetime("0000-00-00 00:00").unwrap(), "0000-00-00T00:00");
}

#[test]
fn trigger_expr_cases() {
    assert_eq!(
        build_trigger_expr(&req("once", Some("2026-09-06T12:30"), None)).unwrap(),
        "New-ScheduledTaskTrigger -Once -At ([datetime]::ParseExact('2026-09-06T12:30','yyyy-MM-ddTHH:mm',[Globalization.CultureInfo]::InvariantCulture))"
    );
    assert_eq!(
        build_trigger_expr(&req("interval", None, Some(30))).unwrap(),
        "New-ScheduledTaskTrigger -Once -At ([datetime]::Now) -RepetitionInterval (New-TimeSpan -Seconds 1800) -RepetitionDuration (New-TimeSpan -Days 3650)"
    );
    assert!(build_trigger_expr(&req("interval", None, Some(u32::MAX)))
        .unwrap()
        .contains("-Seconds 257698037700)"));
    assert_eq!(
        build_trigger_expr(&req("interval", None, None)).unwrap_err(),
        "间隔(分钟)必须大于 0"
    );
    // A blank start time counts as none.
    assert_eq!(
        build_trigger_expr(&req("once", Some("   "), None)).unwrap_err(),
        "一次性任务需要开始时间"
    );
    // The start time is checked before the schedule type.
    assert_eq!(
        build_trigger_expr(&req("weekly", Some(" bad "), None)).unwrap_err(),
        "开始时间格式应为 yyyy-MM-ddTHH:mm，收到: bad"
    );
}

#[test]
fn create_script_full_text() {
    let mut r = req("once", Some("2026-09-06T12:30"), None);
    r.name = "  O'Brien ".into();
    r.program = " C:\\x.exe ".into();
    r.arguments = Some(" -a 'b' ".into());
    r.description = Some("  desc  ".into());
    let s = build_create_script(&r).unwrap();
    assert_eq!(
        s,
        "\n$ErrorActionPreference = 'Stop'\ntry {\n  $action = New-ScheduledTaskAction -Execute 'C:\\x.exe' -Argument ' -a ''b'' '\n  $trig   = New-ScheduledTaskTrigger -Once -At ([datetime]::ParseExact('2026-09-06T12:30','yyyy-MM-ddTHH:mm',[Globalization.CultureInfo]::InvariantCulture))\n  $reg    = Register-ScheduledTask -TaskName 'O''Brien' -Action $action -Trigger $trig -Description 'desc' -Force\n  [Console]::Out.Write('OK|' + [string]$reg.TaskPath + [string]$reg.TaskName)\n} catch {\n  [Console]::Error.Write('CREATE_FAIL: ' + $_.Exception.Message)\n  exit 1\n}\n"
    );
    // Blank arguments and description leave the switches out.
    r.arguments = Some("  ".into());
    r.description = Some("".into());
    let s = build_create_script(&r).unwrap();
    assert!(!s.contains(" -Argument"));
    assert!(!s.contains(" -Description"));
    // The name is checked before the program.
    r.name = "".into();
    r.program = "".into();
    assert_eq!(build_create_script(&r).unwrap_err(), "任务名称不能为空");
}

#[test]
fn verb_commands_all_verbs() {
    assert!(build_verb_command("end", "a", Some("  ")).unwrap().starts_with("Stop-ScheduledTask -TaskPath '\\'"));
    assert!(build_verb_command("enable", "a", None).unwrap().starts_with("Enable-ScheduledTask "));
    assert_eq!(build_verb_command("Run", "a", None).unwrap_err(), "未知操作: Run");
    assert_eq!(
        build_verb_command("run", "it's", Some("\\F'\\")).unwrap(),
        "Start-ScheduledTask -TaskPath '\\F''\\' -TaskName 'it''s' -ErrorAction Stop"
    );
    assert_eq!(
        build_delete_command("a", Some(" \\Sub\\ ")),
        "$ErrorActionPreference='Stop'\nUnregister-ScheduledTask -TaskPath ' \\Sub\\ ' -TaskName 'a' -Confirm:$false"
    );
}

#[test]
fn powershell_outcome_cases() {
    assert_eq!(powershell_outcome(true, Some(0), "  out \n", "warn"), Ok("out".to_string()));
    assert_eq!(powershell_outcome(false, Some(1), "out", " err "), Err("err".to_string()));
    assert_eq!(powershell_outcome(false, Some(1), " out ", "  "), Err("out".to_string()));
    assert_eq!(powershell_outcome(false, Some(2), "", ""), Err("PowerShell 退出码 2".to_string()));
    assert_eq!(powershell_outcome(false, None, " ", "\n"), Err("PowerShell 退出码 -1".to_string()));
    assert_eq!(
        powershell_outcome(false, Some(i32::MIN), "", ""),
        Err("PowerShell 退出码 -2147483648".to_string())
    );
}

#[test]
fn create_task_outcome_cases() {
    assert_eq!(create_task_outcome("OK|\\Foo"), Ok("\\Foo".to_string()));
    assert_eq!(create_task_outcome("OK| x "), Ok(" x ".to_string()));
    assert_eq!(create_task_outcome("CREATE_FAIL:  denied "), Err("denied".to_string()));
    assert_eq!(create_task_outcome(" weird "), Err("weird".to_string()));
    assert_eq!(create_task_outcome("OK"), Err("OK".to_string()));
}

/// Reads a single-quoted PowerShell literal at the start of `t` the way the
/// PowerShell tokenizer does: the text and the number of characters read.
fn read_literal(t: &str) -> Option<(String, usize)> {
    let is_quote = |c: char| matches!(c, '\'' | '\u{2018}' | '\u{2019}' | '\u{201a}' | '\u{201b}');
    let cs: Vec<char> = t.chars().collect();
    if !cs.first().map_or(false, |c| is_quote(*c)) {
        return None;
    }
    let mut out = String::new();
    let mut i = 1;
    while i < cs.len() {
        if is_quote(cs[i]) {
            if i + 1 < cs.len() && is_quote(cs[i + 1]) {
                out.push(cs[i]);
                i += 2;
            } else {
                return Some((out, i + 1));
            }
        } else {
            out.push(cs[i]);
            i += 1;
        }
    }
    None
}

fn after(haystack: &str, marker: &str) -> String {
    let pos = haystack.find(marker).unwrap() + marker.len();
    haystack[pos..].to_string()
}

#[test]
fn quoted_values_read_back() {
    for s in [
        "",
        "'",
        "''",
        "a'b",
        "'; Remove-Item C:\\ -Recurse; '",
        "任务'名",
        "x\u{2019}; calc; #",
        "\u{2018}\u{201a}\u{201b}'",
    ] {
        let q = ps_quote(s);
        let t = format!("{q} -Next");
        assert_eq!(read_literal(&t), Some((s.to_string(), q.chars().count())));
    }
}

#[test]
fn command_addresses_read_back() {
    let name = "x'; Start-Process calc; #";
    let folder = "\\a'b\\";
    let cmd = build_delete_command(name, Some(folder));
    let (f, _) = read_literal(&after(&cmd, "-TaskPath ")).unwrap();
    assert_eq!(f, folder);
    let rest = after(&cmd, " -TaskName ");
    let (n, len) = read_literal(&rest).unwrap();
    assert_eq!(n, name);
    assert_eq!(rest.chars().skip(len).collect::<String>(), " -Confirm:$false");
    let cmd = build_verb_command("end", name, None).unwrap();
    let rest = after(&cmd, " -TaskName ");
    let (n, len) = read_literal(&rest).unwrap();
    assert_eq!(n, name);
    assert_eq!(rest.chars().skip(len).collect::<String>(), " -ErrorAction Stop");
}

#[test]
fn create_script_name_reads_back() {
    let mut r = req("interval", None, Some(2));
    r.name = " a' -Force; Remove-Item x; ' ".into();
    let s = build_create_script(&r).unwrap();
    let rest = after(&s, "Register-ScheduledTask -TaskName ");
    let (n, len) = read_literal(&rest).unwrap();
    assert_eq!(n, "a' -Force; Remove-Item x; '");
    assert!(rest.chars().skip(len).collect::<String>().starts_with(" -Action $action -Trigger $trig"));
}

#[test]
fn typographic_quotes_are_doubled() {
    assert_eq!(ps_quote("x\u{2019}; calc; #"), "'x\u{2019}\u{2019}; calc; #'");
    assert_eq!(
        ps_quote("\u{2018}\u{201a}\u{201b}"),
        "'\u{2018}\u{2018}\u{201a}\u{201a}\u{201b}\u{201b}'"
    );
    let cmd = build_delete_command("x\u{2019}; calc; #", None);
    let rest = after(&cmd, " -TaskName ");
    let (n, len) = read_literal(&rest).unwrap();
    assert_eq!(n, "x\u{2019}; calc; #");
    assert_eq!(rest.chars().skip(len).collect::<String>(), " -Confirm:$false");
}

#[test]
fn crafted_start_time_is_rejected() {
    // Sixteen bytes with T at byte 10, but not the form yyyy-MM-ddTHH:mm.
    let at = "'+(calc)+'T12:30";
    assert_eq!(at.len(), 16);
    let e = build_trigger_expr(&req("once", Some(at), None)).unwrap_err();
    assert_eq!(e, format!("开始时间格式应为 yyyy-MM-ddTHH:mm，收到: {at}"));
    assert!(build_create_script(&req("interval", Some(at), Some(5))).is_err());
    // An accepted start time reads back as itself inside ParseExact('...').
    let s = build_trigger_expr(&req("daily", Some("2026-09-06 12:30"), None)).unwrap();
    let (t, _) = read_literal(&after(&s, "ParseExact(")).unwrap();
    assert_eq!(t, "2026-09-06T12:30");
}
