//! The scheduled-task model and the PowerShell scripts that read and change
//! the Task Scheduler. Task names, folders, programs, arguments and
//! descriptions reach PowerShell only as literals made by `ps_quote`; a start
//! time reaches it only in the form "yyyy-MM-ddTHH:mm", which holds no quote.

use vstd::prelude::*;
use vstd::string::*;
use crate::text::{
    chars_of, decimal, contains_text, digits_value, has, has_text, lemma_decimal_reads_back, is_ps_quote, lemma_escape_plain, lemma_ps_quote_reads_back,
    lemma_trim_of_unpadded, owned, ps_quote, ps_quoted, push_char, push_decimal,
    push_signed_decimal, read_ps_literal, same_text, signed_decimal, starts_with,
    strip_prefix_text, text_result, trim, trim_str,
};

verus! {

/// One scheduled task as the list script reports it.
#[derive(Debug, Clone)]
pub struct TaskSummary {
    pub name: String,
    pub path: String,
    pub state: String,
    pub enabled: bool,
    pub last_run_time: Option<String>,
    pub next_run_time: Option<String>,
    pub last_result: Option<i64>,
    pub executable: Option<String>,
    pub arguments: Option<String>,
    pub description: Option<String>,
}

/// When a new task runs.
#[derive(Debug, Clone)]
pub struct Schedule {
    /// "once" | "interval" | "daily"
    pub ty: String,
    /// Local wall-clock start, "yyyy-MM-ddTHH:mm"
    pub at: Option<String>,
    pub every_minutes: Option<u32>,
}

/// A request to register a new scheduled task.
#[derive(Debug)]
pub struct CreateTaskRequest {
    pub name: String,
    pub program: String,
    pub arguments: Option<String>,
    pub description: Option<String>,
    pub schedule: Schedule,
}

pub const DATETIME_OPEN: &'static str = "[datetime]::ParseExact('";
pub const DATETIME_CLOSE: &'static str = "','yyyy-MM-ddTHH:mm',[Globalization.CultureInfo]::InvariantCulture)";
pub const DATETIME_FORMAT_ERROR: &'static str = "开始时间格式应为 yyyy-MM-ddTHH:mm，收到: ";

pub const LIST_SCRIPT_HEAD: &'static str = r#"
$ErrorActionPreference = 'Stop'
try {
  $rows = @()
  $all = @(Get-ScheduledTask"#;
pub const ROOT_FOLDER_FILTER: &'static str = " -TaskPath '\\'";
pub const LIST_SCRIPT_TAIL: &'static str = r#")
  foreach ($t in $all) {
    $info = $t | Get-ScheduledTaskInfo -ErrorAction SilentlyContinue
    $exe = $null
    $arg = $null
    if ($null -ne $t.Actions -and $t.Actions.Count -gt 0) {
      $exe = [string]$t.Actions[0].Execute
      $arg = [string]$t.Actions[0].Arguments
    }
    $desc = $null
    try { $desc = [string]$t.Description } catch {}
    $lrt = $null
    $nrt = $null
    $res = $null
    if ($null -ne $info) {
      if ($null -ne $info.LastRunTime -and $info.LastRunTime -ne [datetime]::MinValue) {
        $lrt = $info.LastRunTime.ToString('yyyy-MM-ddTHH:mm:ss')
      }
      if ($null -ne $info.NextRunTime -and $info.NextRunTime -ne [datetime]::MinValue) {
        $nrt = $info.NextRunTime.ToString('yyyy-MM-ddTHH:mm:ss')
      }
      try { $res = [long]$info.LastTaskResult } catch {}
    }
    $rows += [pscustomobject]@{
      name          = [string]$t.TaskName
      path          = [string]$t.TaskPath
      state         = [string]$t.State
      enabled       = [bool]$t.Settings.Enabled
      last_run_time = $lrt
      next_run_time = $nrt
      last_result   = $res
      executable    = $exe
      arguments     = $arg
      description   = $desc
    }
  }
  if ($rows.Count -eq 0) {
    [Console]::Out.Write('[]')
  } else {
    [Console]::Out.Write((ConvertTo-Json -InputObject $rows -Depth 3 -Compress))
  }
} catch {
  [Console]::Error.Write('LIST_FAIL: ' + $_.Exception.Message)
  exit 1
}
"#;

pub const ONCE_TRIGGER: &'static str = "New-ScheduledTaskTrigger -Once -At ";
pub const DAILY_TRIGGER: &'static str = "New-ScheduledTaskTrigger -Daily -At ";
pub const NOW_ARG: &'static str = "([datetime]::Now)";
pub const INTERVAL_SECONDS: &'static str = " -RepetitionInterval (New-TimeSpan -Seconds ";
pub const INTERVAL_DURATION: &'static str = ") -RepetitionDuration (New-TimeSpan -Days 3650)";
pub const ONCE_NEEDS_START: &'static str = "一次性任务需要开始时间";
pub const DAILY_NEEDS_START: &'static str = "每日任务需要开始时间";
pub const INTERVAL_NOT_POSITIVE: &'static str = "间隔(分钟)必须大于 0";
pub const UNSUPPORTED_SCHEDULE: &'static str = "不支持的调度类型: ";

pub const NAME_EMPTY: &'static str = "任务名称不能为空";
pub const PROGRAM_EMPTY: &'static str = "要执行的程序不能为空";
pub const EXECUTE_SWITCH: &'static str = "-Execute ";
pub const ARGUMENT_SWITCH: &'static str = " -Argument ";
pub const DESCRIPTION_SWITCH: &'static str = " -Description ";
pub const CREATE_ACTION: &'static str = "\n$ErrorActionPreference = 'Stop'\ntry {\n  $action = New-ScheduledTaskAction ";
pub const CREATE_TRIGGER: &'static str = "\n  $trig   = ";
pub const CREATE_REGISTER: &'static str = "\n  $reg    = Register-ScheduledTask -TaskName ";
pub const CREATE_WIRING: &'static str = " -Action $action -Trigger $trig";
pub const CREATE_TAIL: &'static str = " -Force\n  [Console]::Out.Write('OK|' + [string]$reg.TaskPath + [string]$reg.TaskName)\n} catch {\n  [Console]::Error.Write('CREATE_FAIL: ' + $_.Exception.Message)\n  exit 1\n}\n";

pub const ROOT_FOLDER: &'static str = "\\";
pub const TASK_PATH_SWITCH: &'static str = " -TaskPath ";
pub const TASK_NAME_SWITCH: &'static str = " -TaskName ";
pub const VERB_TAIL: &'static str = " -ErrorAction Stop";
pub const UNKNOWN_VERB: &'static str = "未知操作: ";
pub const DELETE_HEAD: &'static str = "$ErrorActionPreference='Stop'\nUnregister-ScheduledTask";
pub const DELETE_TAIL: &'static str = " -Confirm:$false";

pub const EXIT_CODE_MESSAGE: &'static str = "PowerShell 退出码 ";
pub const CREATED_MARKER: &'static str = "OK|";
pub const CREATE_FAILED_MARKER: &'static str = "CREATE_FAIL: ";

// ---------------------------------------------------------------------------
// Start times
// ---------------------------------------------------------------------------

/// The `[datetime]` expression for a "yyyy-MM-ddTHH:mm" local time.
pub open spec fn datetime_literal_text(at: Seq<char>) -> Seq<char> {
    DATETIME_OPEN@ + at + DATETIME_CLOSE@
}

/// The same expression in parentheses, as a cmdlet argument.
pub open spec fn datetime_arg_text(at: Seq<char>) -> Seq<char> {
    seq!['('] + datetime_literal_text(at) + seq![')']
}

/// A space becomes `T`; other characters stay.
pub open spec fn space_to_t(c: char) -> char {
    if c == ' ' {
        'T'
    } else {
        c
    }
}

/// The start time after trimming, with spaces written as `T`.
pub open spec fn normalized_datetime(at: Seq<char>) -> Seq<char> {
    trim(at).map_values(|c: char| space_to_t(c))
}

/// The character allowed at position `i` of a "yyyy-MM-ddTHH:mm" time:
/// `-` at 4 and 7, `T` at 10, `:` at 13, an ASCII digit elsewhere.
pub open spec fn datetime_char_fits(i: int, c: char) -> bool {
    if i == 4 || i == 7 {
        c == '-'
    } else if i == 10 {
        c == 'T'
    } else if i == 13 {
        c == ':'
    } else {
        '0' <= c <= '9'
    }
}

/// Whether `c` has the form "yyyy-MM-ddTHH:mm".
pub open spec fn has_datetime_form(c: Seq<char>) -> bool {
    c.len() == 16 && forall|i: int| 0 <= i < 16 ==> #[trigger] datetime_char_fits(i, c[i])
}

/// What `parse_datetime` gives for `at`: the normalized time when it has the
/// form "yyyy-MM-ddTHH:mm", else the format error naming `at`.
pub open spec fn parsed_datetime(at: Seq<char>) -> Result<Seq<char>, Seq<char>> {
    let c = normalized_datetime(at);
    if has_datetime_form(c) {
        Ok(c)
    } else {
        Err(DATETIME_FORMAT_ERROR@ + at)
    }
}

fn datetime_char_check(i: usize, c: char) -> (r: bool)
    ensures
        r == datetime_char_fits(i as int, c),
{
    if i == 4 || i == 7 {
        c == '-'
    } else if i == 10 {
        c == 'T'
    } else if i == 13 {
        c == ':'
    } else {
        '0' <= c && c <= '9'
    }
}

/// Whether `s` has the form "yyyy-MM-ddTHH:mm".
pub fn is_datetime_form(s: &str) -> (r: bool)
    ensures
        r == has_datetime_form(s@),
{
    let cs = chars_of(s);
    if cs.len() != 16 {
        return false;
    }
    let mut i: usize = 0;
    while i < 16
        invariant
            i <= 16,
            cs@ == s@,
            s@.len() == 16,
            forall|j: int| 0 <= j < i ==> #[trigger] datetime_char_fits(j, s@[j]),
        decreases 16 - i,
    {
        if !datetime_char_check(i, cs[i]) {
            assert(!datetime_char_fits(i as int, s@[i as int]));
            return false;
        }
        i += 1;
    }
    true
}

/// Build a `[datetime]` literal for the given "yyyy-MM-ddTHH:mm" local time.
pub fn datetime_literal(at: &str) -> (r: String)
    ensures
        r@ == datetime_literal_text(at@),
{
    let mut r = owned(DATETIME_OPEN);
    r.append(at);
    r.append(DATETIME_CLOSE);
    r
}

/// Same, but wrapped in parentheses so it can be passed as a cmdlet argument:
/// in argument mode PowerShell takes an unparenthesised expression as text.
pub fn datetime_arg(at: &str) -> (r: String)
    ensures
        r@ == datetime_arg_text(at@),
{
    let mut r = String::new();
    push_char(&mut r, '(');
    let lit = datetime_literal(at);
    r.append(lit.as_str());
    push_char(&mut r, ')');
    assert(r@ =~= datetime_arg_text(at@));
    r
}

/// Normalize the UI-supplied start time. Accepts "yyyy-MM-dd HH:mm" too.
pub fn parse_datetime(at: &str) -> (r: Result<String, String>)
    ensures
        text_result(r) == parsed_datetime(at@),
{
    let trimmed = trim_str(at);
    let cs = chars_of(trimmed);
    let mut cleaned = String::new();
    let mut i: usize = 0;
    while i < cs.len()
        invariant
            i <= cs@.len(),
            cs@ == trim(at@),
            cleaned@ =~= cs@.take(i as int).map_values(|c: char| space_to_t(c)),
        decreases cs@.len() - i,
    {
        let c = cs[i];
        if c == ' ' {
            push_char(&mut cleaned, 'T');
        } else {
            push_char(&mut cleaned, c);
        }
        assert(cs@.take(i + 1) =~= cs@.take(i as int).push(c));
        i += 1;
    }
    assert(cs@.take(cs@.len() as int) =~= cs@);
    if is_datetime_form(cleaned.as_str()) {
        Ok(cleaned)
    } else {
        let mut e = owned(DATETIME_FORMAT_ERROR);
        e.append(at);
        Err(e)
    }
}

/// Normalizing a start time a second time changes nothing: a value that
/// `parse_datetime` accepted is accepted again, as itself.
pub proof fn lemma_parse_datetime_idempotent(at: Seq<char>)
    requires
        parsed_datetime(at) is Ok,
    ensures
        parsed_datetime(parsed_datetime(at)->Ok_0) == parsed_datetime(at),
{
    let c = normalized_datetime(at);
    assert(datetime_char_fits(0, c[0]));
    assert(datetime_char_fits(15, c[15]));
    lemma_trim_of_unpadded(c);
    assert forall|i: int| 0 <= i < c.len() implies c[i] != ' ' by {
        assert(datetime_char_fits(i, c[i]));
    }
    assert(normalized_datetime(c) =~= c);
}

/// Every wall-clock time is accepted: twelve ASCII digits in the form
/// "yyyy-MM-ddTHH:mm", or with a space in place of the `T`, are accepted as
/// the `T` form, whatever the digits are (any hour, any minute).
pub proof fn lemma_every_wall_clock_time_is_accepted(d: Seq<char>)
    requires
        d.len() == 12,
        forall|i: int| 0 <= i < 12 ==> '0' <= #[trigger] d[i] <= '9',
    ensures
        ({
            let t = seq![d[0], d[1], d[2], d[3], '-', d[4], d[5], '-', d[6], d[7], 'T', d[8], d[9], ':', d[10], d[11]];
            let s = seq![d[0], d[1], d[2], d[3], '-', d[4], d[5], '-', d[6], d[7], ' ', d[8], d[9], ':', d[10], d[11]];
            &&& parsed_datetime(t) == Ok::<Seq<char>, Seq<char>>(t)
            &&& parsed_datetime(s) == Ok::<Seq<char>, Seq<char>>(t)
        }),
{
    let t = seq![d[0], d[1], d[2], d[3], '-', d[4], d[5], '-', d[6], d[7], 'T', d[8], d[9], ':', d[10], d[11]];
    let s = seq![d[0], d[1], d[2], d[3], '-', d[4], d[5], '-', d[6], d[7], ' ', d[8], d[9], ':', d[10], d[11]];
    assert(d[0] == t[0] && d[11] == t[15]);
    assert('0' <= d[0] <= '9' && '0' <= d[11] <= '9');
    lemma_trim_of_unpadded(t);
    lemma_trim_of_unpadded(s);
    assert(normalized_datetime(t) =~= t);
    assert(normalized_datetime(s) =~= t);
    assert forall|i: int| 0 <= i < 16 implies #[trigger] datetime_char_fits(i, t[i]) by {
        if i < 4 {
            assert(t[i] == d[i]);
        } else if 4 < i < 7 {
            assert(t[i] == d[i - 1]);
        } else if 7 < i < 10 {
            assert(t[i] == d[i - 2]);
        } else if 10 < i < 13 {
            assert(t[i] == d[i - 3]);
        } else if 13 < i {
            assert(t[i] == d[i - 4]);
        }
    }
}

/// Only the form "yyyy-MM-ddTHH:mm" is ever accepted: sixteen characters,
/// `-` at 4 and 7, `T` at 10, `:` at 13 and ASCII digits everywhere else.
pub proof fn lemma_accepted_time_has_the_form(at: Seq<char>)
    requires
        parsed_datetime(at) is Ok,
    ensures
        ({
            let c = parsed_datetime(at)->Ok_0;
            &&& c.len() == 16
            &&& c[4] == '-' && c[7] == '-' && c[10] == 'T' && c[13] == ':'
            &&& forall|i: int|
                0 <= i < 16 && i != 4 && i != 7 && i != 10 && i != 13 ==> '0' <= #[trigger] c[i]
                    <= '9'
        }),
{
    let c = parsed_datetime(at)->Ok_0;
    assert(datetime_char_fits(4, c[4]) && datetime_char_fits(7, c[7]));
    assert(datetime_char_fits(10, c[10]) && datetime_char_fits(13, c[13]));
    assert forall|i: int|
        0 <= i < 16 && i != 4 && i != 7 && i != 10 && i != 13 implies '0' <= #[trigger] c[i]
        <= '9' by {
        assert(datetime_char_fits(i, c[i]));
    }
}

/// An accepted start time holds no quote character, so it cannot close the
/// literal it is written into: in the `[datetime]` expression of a trigger,
/// the literal that opens before the time reads back as exactly the time.
pub proof fn lemma_start_time_reads_back(at: Option<String>)
    requires
        schedule_start(at) matches Ok(Some(_)),
    ensures
        ({
            let c = schedule_start(at)->Ok_0->Some_0;
            let k = DATETIME_OPEN@.len() - 1;
            &&& has_datetime_form(c)
            &&& forall|i: int| 0 <= i < c.len() ==> !is_ps_quote(#[trigger] c[i])
            &&& read_ps_literal(datetime_literal_text(c).skip(k)) == Some((c, c.len() + 2))
        }),
{
    reveal_strlit("[datetime]::ParseExact('");
    reveal_strlit("','yyyy-MM-ddTHH:mm',[Globalization.CultureInfo]::InvariantCulture)");
    let c = schedule_start(at)->Ok_0->Some_0;
    assert forall|i: int| 0 <= i < c.len() implies !is_ps_quote(#[trigger] c[i]) by {
        assert(datetime_char_fits(i, c[i]));
    }
    lemma_escape_plain(c);
    let k = DATETIME_OPEN@.len() - 1;
    let rest = DATETIME_CLOSE@.skip(1);
    assert(datetime_literal_text(c).skip(k) =~= ps_quoted(c) + rest);
    assert(rest[0] == ',');
    lemma_ps_quote_reads_back(c, rest);
}

// ---------------------------------------------------------------------------
// The list script
// ---------------------------------------------------------------------------

/// The script that lists the tasks of the root folder, or of all folders.
pub open spec fn list_script_text(scope_all: bool) -> Seq<char> {
    LIST_SCRIPT_HEAD@ + (if scope_all {
        Seq::<char>::empty()
    } else {
        ROOT_FOLDER_FILTER@
    }) + LIST_SCRIPT_TAIL@
}

/// Build the PowerShell script that lists scheduled tasks as a JSON array.
///
/// `ConvertTo-Json` is given the rows with `-InputObject`: through a pipeline
/// a single row would come out as an object rather than an array. The output
/// goes straight to stdout with `[Console]::Out.Write`, so that long JSON is
/// not wrapped at the console width.
pub fn build_list_script(scope_all: bool) -> (r: String)
    ensures
        r@ == list_script_text(scope_all),
{
    let mut r = owned(LIST_SCRIPT_HEAD);
    if !scope_all {
        r.append(ROOT_FOLDER_FILTER);
    }
    r.append(LIST_SCRIPT_TAIL);
    assert(r@ =~= list_script_text(scope_all));
    r
}

/// The two list scripts differ only by the root-folder filter, which the
/// root-folder script holds right after the common head.
pub proof fn lemma_list_scopes_differ_by_filter()
    ensures
        ({
            let all = list_script_text(true);
            let k = LIST_SCRIPT_HEAD@.len() as int;
            list_script_text(false) == all.take(k) + ROOT_FOLDER_FILTER@ + all.skip(k)
        }),
{
    let all = list_script_text(true);
    let k = LIST_SCRIPT_HEAD@.len() as int;
    assert(all =~= LIST_SCRIPT_HEAD@ + LIST_SCRIPT_TAIL@);
    assert(all.take(k) =~= LIST_SCRIPT_HEAD@);
    assert(all.skip(k) =~= LIST_SCRIPT_TAIL@);
    assert(list_script_text(false) =~= all.take(k) + ROOT_FOLDER_FILTER@ + all.skip(k));
}

// ---------------------------------------------------------------------------
// Triggers
// ---------------------------------------------------------------------------

/// The normalized start time of a schedule: none when it is absent or blank.
pub open spec fn schedule_start(at: Option<String>) -> Result<Option<Seq<char>>, Seq<char>> {
    match at {
        None => Ok(None),
        Some(a) => if trim(a@).len() == 0 {
            Ok(None)
        } else {
            match parsed_datetime(trim(a@)) {
                Ok(c) => Ok(Some(c)),
                Err(e) => Err(e),
            }
        },
    }
}

/// The trigger expression for an interval schedule.
pub open spec fn interval_trigger_text(start: Option<Seq<char>>, minutes: nat) -> Seq<char> {
    ONCE_TRIGGER@ + (match start {
        Some(a) => datetime_arg_text(a),
        None => NOW_ARG@,
    }) + INTERVAL_SECONDS@ + decimal(minutes * 60) + INTERVAL_DURATION@
}

/// What `build_trigger_expr` gives for a schedule.
pub open spec fn trigger_text(s: Schedule) -> Result<Seq<char>, Seq<char>> {
    match schedule_start(s.at) {
        Err(e) => Err(e),
        Ok(start) => if s.ty@ == "once"@ {
            match start {
                Some(a) => Ok(ONCE_TRIGGER@ + datetime_arg_text(a)),
                None => Err(ONCE_NEEDS_START@),
            }
        } else if s.ty@ == "daily"@ {
            match start {
                Some(a) => Ok(DAILY_TRIGGER@ + datetime_arg_text(a)),
                None => Err(DAILY_NEEDS_START@),
            }
        } else if s.ty@ == "interval"@ {
            let m = match s.every_minutes {
                Some(m) => m,
                None => 0u32,
            };
            if m == 0 {
                Err(INTERVAL_NOT_POSITIVE@)
            } else {
                Ok(interval_trigger_text(start, m as nat))
            }
        } else {
            Err(UNSUPPORTED_SCHEDULE@ + s.ty@)
        },
    }
}

/// A once or daily trigger starts at the normalized start time, through the
/// same parenthesised `[datetime]::ParseExact` argument: the two differ only
/// in the switch `-Once` or `-Daily`.
pub proof fn lemma_dated_trigger_text(s: Schedule)
    requires
        s.ty@ == "once"@ || s.ty@ == "daily"@,
        schedule_start(s.at) matches Ok(Some(_)),
    ensures
        trigger_text(s) == Ok::<Seq<char>, Seq<char>>(
            "New-ScheduledTaskTrigger -"@ + (if s.ty@ == "once"@ {
                "Once"@
            } else {
                "Daily"@
            }) + " -At ([datetime]::ParseExact('"@ + schedule_start(s.at)->Ok_0->Some_0
                + "','yyyy-MM-ddTHH:mm',[Globalization.CultureInfo]::InvariantCulture))"@,
        ),
{
    reveal_strlit("once");
    reveal_strlit("daily");
    reveal_strlit("Once");
    reveal_strlit("Daily");
    reveal_strlit("New-ScheduledTaskTrigger -");
    reveal_strlit("New-ScheduledTaskTrigger -Once -At ");
    reveal_strlit("New-ScheduledTaskTrigger -Daily -At ");
    reveal_strlit(" -At ([datetime]::ParseExact('");
    reveal_strlit("[datetime]::ParseExact('");
    reveal_strlit("','yyyy-MM-ddTHH:mm',[Globalization.CultureInfo]::InvariantCulture)");
    reveal_strlit("','yyyy-MM-ddTHH:mm',[Globalization.CultureInfo]::InvariantCulture))");
    let c = schedule_start(s.at)->Ok_0->Some_0;
    let tail = "','yyyy-MM-ddTHH:mm',[Globalization.CultureInfo]::InvariantCulture))"@;
    assert(tail =~= DATETIME_CLOSE@ + seq![')']);
    let at_open = " -At ([datetime]::ParseExact('"@;
    if s.ty@ == "once"@ {
        assert(ONCE_TRIGGER@ + seq!['('] + DATETIME_OPEN@ =~= "New-ScheduledTaskTrigger -"@
            + "Once"@ + at_open);
        assert(trigger_text(s)->Ok_0 =~= "New-ScheduledTaskTrigger -"@ + "Once"@ + at_open + c
            + tail);
    } else {
        assert("once"@ != "daily"@) by {
            assert("once"@.len() != "daily"@.len());
        }
        assert(DAILY_TRIGGER@ + seq!['('] + DATETIME_OPEN@ =~= "New-ScheduledTaskTrigger -"@
            + "Daily"@ + at_open);
        assert(trigger_text(s)->Ok_0 =~= "New-ScheduledTaskTrigger -"@ + "Daily"@ + at_open + c
            + tail);
    }
}

/// An interval trigger repeats every `every_minutes` minutes, written in
/// seconds (`every_minutes * 60`, in decimal) for ten years, starting at the
/// normalized start time or, without one, now; a missing or zero interval
/// is refused.
pub proof fn lemma_interval_trigger_text(s: Schedule)
    requires
        s.ty@ == "interval"@,
        schedule_start(s.at) is Ok,
    ensures
        ({
            let m: int = match s.every_minutes {
                Some(m) => m as int,
                None => 0,
            };
            let start = match schedule_start(s.at)->Ok_0 {
                Some(c) => "([datetime]::ParseExact('"@ + c
                    + "','yyyy-MM-ddTHH:mm',[Globalization.CultureInfo]::InvariantCulture))"@,
                None => "([datetime]::Now)"@,
            };
            &&& m == 0 ==> trigger_text(s) == Err::<Seq<char>, Seq<char>>("间隔(分钟)必须大于 0"@)
            &&& m > 0 ==> trigger_text(s) is Ok && ({
                let t = trigger_text(s)->Ok_0;
                let head = "New-ScheduledTaskTrigger -Once -At "@ + start
                    + " -RepetitionInterval (New-TimeSpan -Seconds "@;
                let tail = ") -RepetitionDuration (New-TimeSpan -Days 3650)"@;
                let secs = t.subrange(head.len() as int, t.len() - tail.len());
                &&& t.len() >= head.len() + tail.len()
                &&& t.take(head.len() as int) == head
                &&& t.skip(t.len() - tail.len()) == tail
                &&& secs.len() > 0
                &&& forall|i: int| 0 <= i < secs.len() ==> '0' <= #[trigger] secs[i] <= '9'
                &&& digits_value(secs) == m * 60
            })
        }),
{
    reveal_strlit("once");
    reveal_strlit("daily");
    reveal_strlit("interval");
    assert("interval"@.len() != "once"@.len() && "interval"@.len() != "daily"@.len());
    let m: int = match s.every_minutes {
        Some(m) => m as int,
        None => 0,
    };
    if m > 0 {
        reveal_strlit("([datetime]::ParseExact('");
        reveal_strlit("[datetime]::ParseExact('");
        reveal_strlit("','yyyy-MM-ddTHH:mm',[Globalization.CultureInfo]::InvariantCulture))");
        reveal_strlit("','yyyy-MM-ddTHH:mm',[Globalization.CultureInfo]::InvariantCulture)");
        let t = trigger_text(s)->Ok_0;
        let start = match schedule_start(s.at)->Ok_0 {
            Some(c) => "([datetime]::ParseExact('"@ + c
                + "','yyyy-MM-ddTHH:mm',[Globalization.CultureInfo]::InvariantCulture))"@,
            None => "([datetime]::Now)"@,
        };
        match schedule_start(s.at)->Ok_0 {
            Some(c) => {
                assert(datetime_arg_text(c) =~= start);
            },
            None => {},
        }
        let head = "New-ScheduledTaskTrigger -Once -At "@ + start
            + " -RepetitionInterval (New-TimeSpan -Seconds "@;
        let tail = ") -RepetitionDuration (New-TimeSpan -Days 3650)"@;
        let d = decimal((m * 60) as nat);
        lemma_decimal_reads_back((m * 60) as nat);
        assert(t =~= head + d + tail);
        assert(t.take(head.len() as int) =~= head);
        assert(t.skip(t.len() - tail.len()) =~= tail);
        assert(t.subrange(head.len() as int, t.len() - tail.len()) =~= d);
    }
}

fn start_of(at: &Option<String>) -> (r: Result<Option<String>, String>)
    ensures
        match (r, schedule_start(*at)) {
            (Ok(None), Ok(None)) => true,
            (Ok(Some(a)), Ok(Some(b))) => a@ == b,
            (Err(e), Err(f)) => e@ == f,
            _ => false,
        },
{
    match at {
        None => Ok(None),
        Some(a) => {
            let t = trim_str(a.as_str());
            if t.is_empty() {
                Ok(None)
            } else {
                match parse_datetime(t) {
                    Ok(c) => Ok(Some(c)),
                    Err(e) => Err(e),
                }
            }
        },
    }
}

/// Build the `New-ScheduledTaskTrigger` expression for the requested schedule.
pub fn build_trigger_expr(req: &CreateTaskRequest) -> (r: Result<String, String>)
    ensures
        text_result(r) == trigger_text(req.schedule),
{
    let start = match start_of(&req.schedule.at) {
        Ok(s) => s,
        Err(e) => return Err(e),
    };
    let ty = req.schedule.ty.as_str();
    if same_text(ty, "once") {
        match start {
            Some(a) => {
                let mut r = owned(ONCE_TRIGGER);
                let arg = datetime_arg(a.as_str());
                r.append(arg.as_str());
                Ok(r)
            },
            None => Err(owned(ONCE_NEEDS_START)),
        }
    } else if same_text(ty, "daily") {
        match start {
            Some(a) => {
                let mut r = owned(DAILY_TRIGGER);
                let arg = datetime_arg(a.as_str());
                r.append(arg.as_str());
                Ok(r)
            },
            None => Err(owned(DAILY_NEEDS_START)),
        }
    } else if same_text(ty, "interval") {
        let m: u32 = match req.schedule.every_minutes {
            Some(m) => m,
            None => 0,
        };
        if m == 0 {
            return Err(owned(INTERVAL_NOT_POSITIVE));
        }
        // The start time is optional; without one the trigger starts now.
        let mut r = owned(ONCE_TRIGGER);
        match start {
            Some(a) => {
                let arg = datetime_arg(a.as_str());
                r.append(arg.as_str());
            },
            None => r.append(NOW_ARG),
        }
        r.append(INTERVAL_SECONDS);
        let secs: u64 = m as u64 * 60;
        push_decimal(&mut r, secs);
        r.append(INTERVAL_DURATION);
        Ok(r)
    } else {
        let mut e = owned(UNSUPPORTED_SCHEDULE);
        e.append(ty);
        Err(e)
    }
}

// ---------------------------------------------------------------------------
// The create script
// ---------------------------------------------------------------------------

/// The `New-ScheduledTaskAction` arguments: the program, then the arguments
/// when there are any (as given, untrimmed).
pub open spec fn action_args_text(program: Seq<char>, arguments: Option<String>) -> Seq<char> {
    EXECUTE_SWITCH@ + ps_quoted(program) + (if has_text(arguments) {
        ARGUMENT_SWITCH@ + ps_quoted(arguments->Some_0@)
    } else {
        Seq::<char>::empty()
    })
}

/// The optional `-Description` switch, with the description trimmed.
pub open spec fn settings_text(description: Option<String>) -> Seq<char> {
    if has_text(description) {
        DESCRIPTION_SWITCH@ + ps_quoted(trim(description->Some_0@))
    } else {
        Seq::<char>::empty()
    }
}

/// The registration script for a valid request, from its parts.
pub open spec fn create_script_text(
    action_args: Seq<char>,
    trigger: Seq<char>,
    name: Seq<char>,
    settings: Seq<char>,
) -> Seq<char> {
    CREATE_ACTION@ + action_args + CREATE_TRIGGER@ + trigger + CREATE_REGISTER@ + ps_quoted(name)
        + CREATE_WIRING@ + settings + CREATE_TAIL@
}

/// What `build_create_script` gives for a request: the first failing check
/// in the order name, program, schedule decides the error.
pub open spec fn create_script(req: CreateTaskRequest) -> Result<Seq<char>, Seq<char>> {
    let name = trim(req.name@);
    let program = trim(req.program@);
    if name.len() == 0 {
        Err(NAME_EMPTY@)
    } else if program.len() == 0 {
        Err(PROGRAM_EMPTY@)
    } else {
        match trigger_text(req.schedule) {
            Err(e) => Err(e),
            Ok(trigger) => Ok(
                create_script_text(
                    action_args_text(program, req.arguments),
                    trigger,
                    name,
                    settings_text(req.description),
                ),
            ),
        }
    }
}

/// Build the PowerShell script that registers a new scheduled task.
pub fn build_create_script(req: &CreateTaskRequest) -> (r: Result<String, String>)
    ensures
        text_result(r) == create_script(*req),
{
    let name = trim_str(req.name.as_str());
    if name.is_empty() {
        return Err(owned(NAME_EMPTY));
    }
    let program = trim_str(req.program.as_str());
    if program.is_empty() {
        return Err(owned(PROGRAM_EMPTY));
    }
    let trigger_cmd = match build_trigger_expr(req) {
        Ok(t) => t,
        Err(e) => return Err(e),
    };

    let mut action_args = owned(EXECUTE_SWITCH);
    let quoted_program = ps_quote(program);
    action_args.append(quoted_program.as_str());
    if has(&req.arguments) {
        match &req.arguments {
            Some(a) => {
                action_args.append(ARGUMENT_SWITCH);
                let quoted = ps_quote(a.as_str());
                action_args.append(quoted.as_str());
            },
            None => {},
        }
    }
    assert(action_args@ =~= action_args_text(program@, req.arguments));

    let mut settings = String::new();
    if has(&req.description) {
        match &req.description {
            Some(d) => {
                settings.append(DESCRIPTION_SWITCH);
                let quoted = ps_quote(trim_str(d.as_str()));
                settings.append(quoted.as_str());
            },
            None => {},
        }
    }
    assert(settings@ =~= settings_text(req.description));

    let mut r = owned(CREATE_ACTION);
    r.append(action_args.as_str());
    r.append(CREATE_TRIGGER);
    r.append(trigger_cmd.as_str());
    r.append(CREATE_REGISTER);
    let name_q = ps_quote(name);
    r.append(name_q.as_str());
    r.append(CREATE_WIRING);
    r.append(settings.as_str());
    r.append(CREATE_TAIL);
    assert(r@ =~= create_script_text(action_args@, trigger_cmd@, name@, settings@));
    Ok(r)
}

/// The name a create script registers is the trimmed name of the request,
/// whatever it holds: reading the script as PowerShell does, the literal
/// after `Register-ScheduledTask -TaskName ` is that name, and the script
/// goes on with ` -Action $action -Trigger $trig` right after it.
pub proof fn lemma_create_script_name_reads_back(req: CreateTaskRequest)
    requires
        create_script(req) is Ok,
    ensures
        ({
            let t = create_script(req)->Ok_0;
            let name = trim(req.name@);
            let k = (CREATE_ACTION@ + action_args_text(trim(req.program@), req.arguments)
                + CREATE_TRIGGER@ + trigger_text(req.schedule)->Ok_0 + CREATE_REGISTER@).len();
            &&& read_ps_literal(t.skip(k as int)) == Some((name, ps_quoted(name).len()))
            &&& t.skip((k + ps_quoted(name).len()) as int).take(CREATE_WIRING@.len() as int)
                == CREATE_WIRING@
        }),
{
    reveal_strlit(" -Action $action -Trigger $trig");
    let t = create_script(req)->Ok_0;
    let name = trim(req.name@);
    let head = CREATE_ACTION@ + action_args_text(trim(req.program@), req.arguments)
        + CREATE_TRIGGER@ + trigger_text(req.schedule)->Ok_0 + CREATE_REGISTER@;
    let rest = CREATE_WIRING@ + settings_text(req.description) + CREATE_TAIL@;
    assert(t =~= head + ps_quoted(name) + rest);
    assert(t.skip(head.len() as int) =~= ps_quoted(name) + rest);
    assert(rest[0] == ' ');
    lemma_ps_quote_reads_back(name, rest);
    assert(t.skip((head.len() + ps_quoted(name).len()) as int) =~= rest);
    assert(rest.take(CREATE_WIRING@.len() as int) =~= CREATE_WIRING@);
}

/// A create request is checked in order: a blank name is refused first,
/// whatever else the request holds; then a blank program; then the
/// schedule, whose error is passed on unchanged. A request that passes all
/// three is accepted.
pub proof fn lemma_create_script_checks(req: CreateTaskRequest)
    ensures
        trim(req.name@).len() == 0 ==> create_script(req) == Err::<Seq<char>, Seq<char>>(
            "任务名称不能为空"@,
        ),
        trim(req.name@).len() > 0 && trim(req.program@).len() == 0 ==> create_script(req)
            == Err::<Seq<char>, Seq<char>>("要执行的程序不能为空"@),
        trim(req.name@).len() > 0 && trim(req.program@).len() > 0 ==> (create_script(req) is Ok
            <==> trigger_text(req.schedule) is Ok),
        trim(req.name@).len() > 0 && trim(req.program@).len() > 0 && trigger_text(
            req.schedule,
        ) is Err ==> create_script(req) == trigger_text(req.schedule),
{
}

/// The action runs the trimmed program with the arguments exactly as given
/// (untrimmed) when they hold text, and with no `-Argument` switch otherwise,
/// whatever the description is.
pub proof fn lemma_create_script_action(req: CreateTaskRequest)
    requires
        create_script(req) is Ok,
    ensures
        has_text(req.arguments) ==> contains_text(
            create_script(req)->Ok_0,
            "New-ScheduledTaskAction -Execute "@ + ps_quoted(trim(req.program@)) + " -Argument "@
                + ps_quoted(req.arguments->Some_0@) + "\n  $trig   = "@,
        ),
        !has_text(req.arguments) ==> contains_text(
            create_script(req)->Ok_0,
            "New-ScheduledTaskAction -Execute "@ + ps_quoted(trim(req.program@))
                + "\n  $trig   = "@,
        ),
{
    reveal_strlit("\n$ErrorActionPreference = 'Stop'\ntry {\n  $action = New-ScheduledTaskAction ");
    reveal_strlit("\n$ErrorActionPreference = 'Stop'\ntry {\n  $action = ");
    reveal_strlit("New-ScheduledTaskAction ");
    reveal_strlit("New-ScheduledTaskAction -Execute ");
    reveal_strlit("-Execute ");
    let script = create_script(req)->Ok_0;
    let pre = "\n$ErrorActionPreference = 'Stop'\ntry {\n  $action = "@;
    assert(CREATE_ACTION@ =~= pre + "New-ScheduledTaskAction "@);
    let action = action_args_text(trim(req.program@), req.arguments);
    let rest = trigger_text(req.schedule)->Ok_0 + CREATE_REGISTER@ + ps_quoted(trim(req.name@))
        + CREATE_WIRING@ + settings_text(req.description) + CREATE_TAIL@;
    let middle = "New-ScheduledTaskAction "@ + action + CREATE_TRIGGER@;
    assert(script =~= pre + middle + rest);
    let i: int = pre.len() as int;
    assert(script.subrange(i, i + middle.len() as int) =~= middle);
    if has_text(req.arguments) {
        assert(middle =~= "New-ScheduledTaskAction -Execute "@ + ps_quoted(trim(req.program@))
            + " -Argument "@ + ps_quoted(req.arguments->Some_0@) + "\n  $trig   = "@);
    } else {
        assert(middle =~= "New-ScheduledTaskAction -Execute "@ + ps_quoted(trim(req.program@))
            + "\n  $trig   = "@);
    }
}

/// The `-Description` switch follows the description alone, whatever the
/// arguments are: with a non-blank description the script registers the task
/// with ` -Trigger $trig -Description '<trimmed description>' -Force`, and
/// without one with ` -Trigger $trig -Force`.
pub proof fn lemma_create_script_description_switch(req: CreateTaskRequest)
    requires
        create_script(req) is Ok,
    ensures
        has_text(req.description) ==> contains_text(
            create_script(req)->Ok_0,
            " -Trigger $trig -Description "@ + ps_quoted(trim(req.description->Some_0@))
                + " -Force"@,
        ),
        !has_text(req.description) ==> contains_text(
            create_script(req)->Ok_0,
            " -Trigger $trig -Force"@,
        ),
{
    reveal_strlit(" -Action $action -Trigger $trig");
    reveal_strlit(" -Action $action");
    reveal_strlit(" -Trigger $trig");
    reveal_strlit(" -Description ");
    reveal_strlit(" -Force");
    reveal_strlit(" -Trigger $trig -Description ");
    reveal_strlit(" -Trigger $trig -Force");
    reveal_strlit(
        " -Force\n  [Console]::Out.Write('OK|' + [string]$reg.TaskPath + [string]$reg.TaskName)\n} catch {\n  [Console]::Error.Write('CREATE_FAIL: ' + $_.Exception.Message)\n  exit 1\n}\n",
    );
    let script = create_script(req)->Ok_0;
    let head = CREATE_ACTION@ + action_args_text(trim(req.program@), req.arguments)
        + CREATE_TRIGGER@ + trigger_text(req.schedule)->Ok_0 + CREATE_REGISTER@ + ps_quoted(
        trim(req.name@),
    );
    let settings = settings_text(req.description);
    let tail = CREATE_TAIL@.skip(7);
    assert(CREATE_WIRING@ =~= " -Action $action"@ + " -Trigger $trig"@);
    assert(CREATE_TAIL@ =~= " -Force"@ + tail);
    let i: int = head.len() as int + 16;
    let middle = " -Trigger $trig"@ + settings + " -Force"@;
    assert(script =~= (head + " -Action $action"@) + middle + tail);
    assert(script.subrange(i, i + middle.len() as int) =~= middle);
    if has_text(req.description) {
        let needle = " -Trigger $trig -Description "@ + ps_quoted(trim(req.description->Some_0@))
            + " -Force"@;
        assert(middle =~= needle);
    } else {
        assert(middle =~= " -Trigger $trig -Force"@);
    }
}

// ---------------------------------------------------------------------------
// Verb and delete commands
// ---------------------------------------------------------------------------

/// The cmdlet that carries out a verb, if the verb is known.
pub open spec fn verb_cmdlet(verb: Seq<char>) -> Option<Seq<char>> {
    if verb == "run"@ {
        Some("Start-ScheduledTask"@)
    } else if verb == "end"@ {
        Some("Stop-ScheduledTask"@)
    } else if verb == "enable"@ {
        Some("Enable-ScheduledTask"@)
    } else if verb == "disable"@ {
        Some("Disable-ScheduledTask"@)
    } else {
        None
    }
}

/// The folder a command addresses: the given path unless it is absent or
/// blank, and then the root folder `\`.
pub open spec fn task_folder(path: Option<&str>) -> Seq<char> {
    match path {
        Some(p) => if trim(p@).len() > 0 {
            p@
        } else {
            ROOT_FOLDER@
        },
        None => ROOT_FOLDER@,
    }
}

/// ` -TaskPath '<folder>' -TaskName '<name>'`.
pub open spec fn task_address_text(folder: Seq<char>, name: Seq<char>) -> Seq<char> {
    TASK_PATH_SWITCH@ + ps_quoted(folder) + TASK_NAME_SWITCH@ + ps_quoted(name)
}

/// What `build_verb_command` gives.
pub open spec fn verb_command(verb: Seq<char>, name: Seq<char>, path: Option<&str>) -> Result<
    Seq<char>,
    Seq<char>,
> {
    match verb_cmdlet(verb) {
        Some(cmd) => Ok(cmd + task_address_text(task_folder(path), name) + VERB_TAIL@),
        None => Err(UNKNOWN_VERB@ + verb),
    }
}

/// What `build_delete_command` gives.
pub open spec fn delete_command(name: Seq<char>, path: Option<&str>) -> Seq<char> {
    DELETE_HEAD@ + task_address_text(task_folder(path), name) + DELETE_TAIL@
}

fn folder_of<'a>(path: Option<&'a str>) -> (r: &'a str)
    ensures
        r@ == task_folder(path),
{
    match path {
        Some(p) => if trim_str(p).is_empty() {
            ROOT_FOLDER
        } else {
            p
        },
        None => ROOT_FOLDER,
    }
}

fn push_task_address(out: &mut String, folder: &str, name: &str)
    ensures
        final(out)@ == old(out)@ + task_address_text(folder@, name@),
{
    out.append(TASK_PATH_SWITCH);
    let path_q = ps_quote(folder);
    out.append(path_q.as_str());
    out.append(TASK_NAME_SWITCH);
    let name_q = ps_quote(name);
    out.append(name_q.as_str());
    assert(out@ =~= old(out)@ + task_address_text(folder@, name@));
}

/// Build the PowerShell command for a verb-style operation against a task.
pub fn build_verb_command(verb: &str, name: &str, path: Option<&str>) -> (r: Result<String, String>)
    ensures
        text_result(r) == verb_command(verb@, name@, path),
{
    let cmd: &str = if same_text(verb, "run") {
        "Start-ScheduledTask"
    } else if same_text(verb, "end") {
        "Stop-ScheduledTask"
    } else if same_text(verb, "enable") {
        "Enable-ScheduledTask"
    } else if same_text(verb, "disable") {
        "Disable-ScheduledTask"
    } else {
        let mut e = owned(UNKNOWN_VERB);
        e.append(verb);
        return Err(e);
    };
    let mut r = owned(cmd);
    push_task_address(&mut r, folder_of(path), name);
    r.append(VERB_TAIL);
    Ok(r)
}

/// Build the PowerShell command that deletes a task.
pub fn build_delete_command(name: &str, path: Option<&str>) -> (r: String)
    ensures
        r@ == delete_command(name@, path),
{
    let mut r = owned(DELETE_HEAD);
    push_task_address(&mut r, folder_of(path), name);
    r.append(DELETE_TAIL);
    r
}

/// The task a verb or delete command addresses is the one named, whatever
/// its name and folder hold: reading the command as PowerShell does, the
/// literal after ` -TaskPath ` is the folder, and the literal after
/// ` -TaskName ` is the name, and the command goes on with the text that
/// follows it (` -ErrorAction Stop` or ` -Confirm:$false`).
pub proof fn lemma_task_address_reads_back(folder: Seq<char>, name: Seq<char>, tail: Seq<char>)
    requires
        tail == VERB_TAIL@ || tail == DELETE_TAIL@,
    ensures
        ({
            let t = task_address_text(folder, name) + tail;
            let a = TASK_PATH_SWITCH@.len();
            let b = a + ps_quoted(folder).len() + TASK_NAME_SWITCH@.len();
            &&& read_ps_literal(t.skip(a as int)) == Some((folder, ps_quoted(folder).len()))
            &&& read_ps_literal(t.skip(b as int)) == Some((name, ps_quoted(name).len()))
            &&& t.skip((b + ps_quoted(name).len()) as int) == tail
        }),
{
    reveal_strlit(" -TaskName ");
    reveal_strlit(" -TaskPath ");
    reveal_strlit(" -ErrorAction Stop");
    reveal_strlit(" -Confirm:$false");
    let t = task_address_text(folder, name) + tail;
    let a = TASK_PATH_SWITCH@.len();
    let b = a + ps_quoted(folder).len() + TASK_NAME_SWITCH@.len();
    let after_folder = TASK_NAME_SWITCH@ + ps_quoted(name) + tail;
    assert(t.skip(a as int) =~= ps_quoted(folder) + after_folder);
    assert(after_folder[0] == ' ');
    lemma_ps_quote_reads_back(folder, after_folder);
    assert(t.skip(b as int) =~= ps_quoted(name) + tail);
    assert(tail[0] == ' ');
    lemma_ps_quote_reads_back(name, tail);
    assert(t.skip((b + ps_quoted(name).len()) as int) =~= tail);
}

/// The four verbs run their cmdlets on the addressed task, in the folder
/// given or, when it is absent or blank, the root folder `\`; any other verb
/// is refused, naming it.
pub proof fn lemma_verb_commands(verb: Seq<char>, name: Seq<char>, path: Option<&str>)
    ensures
        ({
            let folder = if path matches Some(p) && trim(p@).len() > 0 {
                path->Some_0@
            } else {
                "\\"@
            };
            let address = " -TaskPath "@ + ps_quoted(folder) + " -TaskName "@ + ps_quoted(name)
                + " -ErrorAction Stop"@;
            &&& verb == "run"@ ==> verb_command(verb, name, path) == Ok::<Seq<char>, Seq<char>>(
                "Start-ScheduledTask"@ + address,
            )
            &&& verb == "end"@ ==> verb_command(verb, name, path) == Ok::<Seq<char>, Seq<char>>(
                "Stop-ScheduledTask"@ + address,
            )
            &&& verb == "enable"@ ==> verb_command(verb, name, path) == Ok::<
                Seq<char>,
                Seq<char>,
            >("Enable-ScheduledTask"@ + address)
            &&& verb == "disable"@ ==> verb_command(verb, name, path) == Ok::<
                Seq<char>,
                Seq<char>,
            >("Disable-ScheduledTask"@ + address)
            &&& verb != "run"@ && verb != "end"@ && verb != "enable"@ && verb != "disable"@
                ==> verb_command(verb, name, path) == Err::<Seq<char>, Seq<char>>(
                "未知操作: "@ + verb,
            )
        }),
{
    reveal_strlit("run");
    reveal_strlit("end");
    reveal_strlit("enable");
    reveal_strlit("disable");
    reveal_strlit("\\");
    reveal_strlit("未知操作: ");
    assert("run"@ != "end"@) by {
        assert("run"@[0] != "end"@[0]);
    }
    assert("run"@.len() != "enable"@.len() && "run"@.len() != "disable"@.len());
    assert("end"@.len() != "enable"@.len() && "end"@.len() != "disable"@.len());
    assert("enable"@.len() != "disable"@.len());
    let folder = task_folder(path);
    let address = " -TaskPath "@ + ps_quoted(folder) + " -TaskName "@ + ps_quoted(name)
        + " -ErrorAction Stop"@;
    assert(task_address_text(folder, name) + VERB_TAIL@ =~= address);
    if verb_cmdlet(verb) is Some {
        let c = verb_cmdlet(verb)->Some_0;
        assert(c + task_address_text(folder, name) + VERB_TAIL@ =~= c + address);
    }
}

/// The delete command unregisters the addressed task without asking, in the
/// folder given or, when it is absent or blank, the root folder `\`.
pub proof fn lemma_delete_command_text(name: Seq<char>, path: Option<&str>)
    ensures
        delete_command(name, path) == "$ErrorActionPreference='Stop'\nUnregister-ScheduledTask -TaskPath "@
            + ps_quoted(
            if path matches Some(p) && trim(p@).len() > 0 {
                path->Some_0@
            } else {
                "\\"@
            },
        ) + " -TaskName "@ + ps_quoted(name) + " -Confirm:$false"@,
{
    reveal_strlit("$ErrorActionPreference='Stop'\nUnregister-ScheduledTask");
    reveal_strlit(" -TaskPath ");
    reveal_strlit("$ErrorActionPreference='Stop'\nUnregister-ScheduledTask -TaskPath ");
    let folder = task_folder(path);
    assert(DELETE_HEAD@ + TASK_PATH_SWITCH@ =~= "$ErrorActionPreference='Stop'\nUnregister-ScheduledTask -TaskPath "@);
    assert(delete_command(name, path) =~= "$ErrorActionPreference='Stop'\nUnregister-ScheduledTask -TaskPath "@
        + ps_quoted(folder) + " -TaskName "@ + ps_quoted(name) + " -Confirm:$false"@);
}

// ---------------------------------------------------------------------------
// What PowerShell answered
// ---------------------------------------------------------------------------

/// What a PowerShell run comes to: on success its trimmed stdout; on failure
/// the trimmed stderr, else the trimmed stdout, else the exit code (-1 where
/// the process had none).
pub open spec fn powershell_result(
    success: bool,
    exit_code: Option<i32>,
    stdout: Seq<char>,
    stderr: Seq<char>,
) -> Result<Seq<char>, Seq<char>> {
    let out = trim(stdout);
    let err = trim(stderr);
    if success {
        Ok(out)
    } else if err.len() > 0 {
        Err(err)
    } else if out.len() > 0 {
        Err(out)
    } else {
        Err(
            EXIT_CODE_MESSAGE@ + signed_decimal(
                match exit_code {
                    Some(c) => c as int,
                    None => -1,
                },
            ),
        )
    }
}

/// Turns the outcome of a PowerShell run into its stdout on success or an
/// error message otherwise.
pub fn powershell_outcome(success: bool, exit_code: Option<i32>, stdout: &str, stderr: &str) -> (r:
    Result<String, String>)
    ensures
        text_result(r) == powershell_result(success, exit_code, stdout@, stderr@),
{
    let out = trim_str(stdout);
    let err = trim_str(stderr);
    if success {
        Ok(owned(out))
    } else if !err.is_empty() {
        Err(owned(err))
    } else if !out.is_empty() {
        Err(owned(out))
    } else {
        let code: i32 = match exit_code {
            Some(c) => c,
            None => -1,
        };
        let mut msg = owned(EXIT_CODE_MESSAGE);
        push_signed_decimal(&mut msg, code as i64);
        Err(msg)
    }
}

/// A PowerShell run that succeeded is always reported as a success, with its
/// trimmed stdout, whatever stdout and stderr hold (empty ones included); a
/// run that failed is never reported as a success.
pub proof fn lemma_run_success_decides(
    exit_code: Option<i32>,
    stdout: Seq<char>,
    stderr: Seq<char>,
)
    ensures
        powershell_result(true, exit_code, stdout, stderr) == Ok::<Seq<char>, Seq<char>>(
            trim(stdout),
        ),
        powershell_result(false, exit_code, stdout, stderr) is Err,
{
}

/// A failed run reports stderr when it holds text, else stdout when it holds
/// text, else the exit code in decimal (-1 when the process has none).
pub proof fn lemma_run_failure_message(exit_code: Option<i32>, stdout: Seq<char>, stderr: Seq<char>)
    ensures
        trim(stderr).len() > 0 ==> powershell_result(false, exit_code, stdout, stderr) == Err::<
            Seq<char>,
            Seq<char>,
        >(trim(stderr)),
        trim(stderr).len() == 0 && trim(stdout).len() > 0 ==> powershell_result(
            false,
            exit_code,
            stdout,
            stderr,
        ) == Err::<Seq<char>, Seq<char>>(trim(stdout)),
        trim(stderr).len() == 0 && trim(stdout).len() == 0 ==> ({
            let code: int = match exit_code {
                Some(c) => c as int,
                None => -1,
            };
            let m = powershell_result(false, exit_code, stdout, stderr)->Err_0;
            let k = "PowerShell 退出码 "@.len() as int;
            &&& powershell_result(false, exit_code, stdout, stderr) is Err
            &&& m.take(k) == "PowerShell 退出码 "@
            &&& code < 0 ==> m[k] == '-' && digits_value(m.skip(k + 1)) == -code
            &&& code >= 0 ==> digits_value(m.skip(k)) == code && '0' <= m[k] <= '9'
        }),
{
    let code: int = match exit_code {
        Some(c) => c as int,
        None => -1,
    };
    if trim(stderr).len() == 0 && trim(stdout).len() == 0 {
        let m = powershell_result(false, exit_code, stdout, stderr)->Err_0;
        let k = EXIT_CODE_MESSAGE@.len() as int;
        if code < 0 {
            lemma_decimal_reads_back((-code) as nat);
            assert(m.take(k) =~= EXIT_CODE_MESSAGE@);
            assert(m.skip(k + 1) =~= decimal((-code) as nat));
        } else {
            lemma_decimal_reads_back(code as nat);
            assert(m.take(k) =~= EXIT_CODE_MESSAGE@);
            assert(m.skip(k) =~= decimal(code as nat));
        }
    }
}

/// The create script's output is read as: `OK|` and the registered task's
/// location, which comes back as is; or `CREATE_FAIL: ` and a message, which
/// comes back trimmed as the error; anything else comes back trimmed as the
/// error.
pub proof fn lemma_create_outcome_cases(x: Seq<char>)
    ensures
        create_result("OK|"@ + x) == Ok::<Seq<char>, Seq<char>>(x),
        !(x.len() >= 3 && x.take(3) == "OK|"@) ==> create_result("CREATE_FAIL: "@ + x) == Err::<
            Seq<char>,
            Seq<char>,
        >(trim(x)),
        !(x.len() >= 3 && x.take(3) == "OK|"@) && !(x.len() >= 13 && x.take(13)
            == "CREATE_FAIL: "@) ==> create_result(x) == Err::<Seq<char>, Seq<char>>(trim(x)),
{
    reveal_strlit("OK|");
    reveal_strlit("CREATE_FAIL: ");
    let ok = "OK|"@ + x;
    assert(ok.subrange(0, 3) =~= "OK|"@);
    assert(ok.skip(3) =~= x);
    let fail = "CREATE_FAIL: "@ + x;
    assert(fail.subrange(0, 13) =~= "CREATE_FAIL: "@);
    assert(fail.skip(13) =~= x);
    assert(fail.subrange(0, 3) != "OK|"@) by {
        assert(fail.subrange(0, 3)[0] == 'C');
    }
    assert(x.take(3) =~= x.subrange(0, 3));
    assert(x.take(13) =~= x.subrange(0, 13));
}

/// What the create script's output comes to: the task's location after
/// `OK|`, or else the failure message without its `CREATE_FAIL: ` marker,
/// trimmed.
pub open spec fn create_result(out: Seq<char>) -> Result<Seq<char>, Seq<char>> {
    if starts_with(out, CREATED_MARKER@) {
        Ok(out.skip(CREATED_MARKER@.len() as int))
    } else if starts_with(out, CREATE_FAILED_MARKER@) {
        Err(trim(out.skip(CREATE_FAILED_MARKER@.len() as int)))
    } else {
        Err(trim(out))
    }
}

/// Reads the output of the create script: the registered task's location
/// (folder and name) on success.
pub fn create_task_outcome(out: &str) -> (r: Result<String, String>)
    ensures
        text_result(r) == create_result(out@),
{
    match strip_prefix_text(out, CREATED_MARKER) {
        Some(rest) => Ok(owned(rest)),
        None => {
            let msg = match strip_prefix_text(out, CREATE_FAILED_MARKER) {
                Some(rest) => rest,
                None => out,
            };
            Err(owned(trim_str(msg)))
        },
    }
}

} // verus!
