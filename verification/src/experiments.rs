//! The actions to execute on an experiment folder, and the jobs that pack
//! simulations into slurm scripts.

use vstd::prelude::*;
use std::str::FromStr;
use crate::text::{append_decimal, decimal};

verus! {

#[derive(Debug, Clone, Copy, PartialEq, Eq, Structural)]
pub enum Action {
    ///Default action of executing locally and creating the output files.
    LocalAndOutput,
    ///Execute remaining runs locally and sequentially.
    Local,
    ///Just generates the output with the available data
    Output,
    ///Package the executions into Slurm jobs and send them to the Slurm queue system.
    Slurm,
    ///Checks how many results it has.
    Check,
    ///Bring results from the remote via sftp.
    Pull,
    ///Performs a check action on the remote.
    RemoteCheck,
    ///Push data into the remote.
    Push,
    ///Cancel all slurm jobs owned by the experiment.
    SlurmCancel,
    ///Create shell/skeleton/carcase files. This is, create a folder containing the files: main.cfg, main.od, remote. Use `--source` to copy them from a existing one.
    Shell,
    ///Builds up a `binary.results` if it does not exists and erase all `runs/run*/`.
    Pack,
}

///The action a name given in the command line asks for.
pub open spec fn action_named(s: Seq<char>) -> Option<Action> {
    if s == "default"@ { Some(Action::LocalAndOutput) }
    else if s == "local_and_output"@ { Some(Action::LocalAndOutput) }
    else if s == "local"@ { Some(Action::Local) }
    else if s == "output"@ { Some(Action::Output) }
    else if s == "slurm"@ { Some(Action::Slurm) }
    else if s == "check"@ { Some(Action::Check) }
    else if s == "pull"@ { Some(Action::Pull) }
    else if s == "remote_check"@ { Some(Action::RemoteCheck) }
    else if s == "push"@ { Some(Action::Push) }
    else if s == "slurm_cancel"@ { Some(Action::SlurmCancel) }
    else if s == "shell"@ { Some(Action::Shell) }
    else if s == "pack"@ { Some(Action::Pack) }
    else { None }
}

///The name by which the action is written in reports.
pub open spec fn action_display(a: Action) -> Seq<char> {
    match a {
        Action::LocalAndOutput => "LocalAndOutput"@,
        Action::Local => "Local"@,
        Action::Output => "Output"@,
        Action::Slurm => "Slurm"@,
        Action::Check => "Check"@,
        Action::Pull => "Pull"@,
        Action::RemoteCheck => "RemoteCheck"@,
        Action::Push => "Push"@,
        Action::SlurmCancel => "SlurmCancel"@,
        Action::Shell => "Shell"@,
        Action::Pack => "Pack"@,
    }
}

///Whether two texts are the same, character by character.
pub fn same_text(a: &str, b: &str) -> (r: bool)
    ensures
        r == (a@ == b@),
{
    let n = a.unicode_len();
    let m = b.unicode_len();
    if n != m {
        return false;
    }
    let mut i: usize = 0;
    while i < n
        invariant
            i <= n,
            n == a@.len(),
            m == b@.len(),
            n == m,
            forall|k: int| 0 <= k < i ==> a@[k] == b@[k],
        decreases n - i,
    {
        if a.get_char(i) != b.get_char(i) {
            return false;
        }
        i = i + 1;
    }
    proof {
        assert(a@ =~= b@);
    }
    true
}

impl Action {
    ///The action named `s`, as the command line writes it; `Err` for any other text.
    pub fn from_name(s: &str) -> (r: Result<Action, ()>)
        ensures
            r == match action_named(s@) {
                Some(a) => Ok::<Action, ()>(a),
                None => Err(()),
            },
    {
        if same_text(s, "default") { Ok(Action::LocalAndOutput) }
        else if same_text(s, "local_and_output") { Ok(Action::LocalAndOutput) }
        else if same_text(s, "local") { Ok(Action::Local) }
        else if same_text(s, "output") { Ok(Action::Output) }
        else if same_text(s, "slurm") { Ok(Action::Slurm) }
        else if same_text(s, "check") { Ok(Action::Check) }
        else if same_text(s, "pull") { Ok(Action::Pull) }
        else if same_text(s, "remote_check") { Ok(Action::RemoteCheck) }
        else if same_text(s, "push") { Ok(Action::Push) }
        else if same_text(s, "slurm_cancel") { Ok(Action::SlurmCancel) }
        else if same_text(s, "shell") { Ok(Action::Shell) }
        else if same_text(s, "pack") { Ok(Action::Pack) }
        else { Err(()) }
    }

    ///The name of the action as reports write it: the name of its variant.
    pub fn display_name(&self) -> (r: &'static str)
        ensures
            r@ == action_display(*self),
    {
        match self {
            Action::LocalAndOutput => "LocalAndOutput",
            Action::Local => "Local",
            Action::Output => "Output",
            Action::Slurm => "Slurm",
            Action::Check => "Check",
            Action::Pull => "Pull",
            Action::RemoteCheck => "RemoteCheck",
            Action::Push => "Push",
            Action::SlurmCancel => "SlurmCancel",
            Action::Shell => "Shell",
            Action::Pack => "Pack",
        }
    }
}

impl FromStr for Action {
    type Err = ();

    fn from_str(s: &str) -> (r: Result<Action, ()>)
        ensures
            r == match action_named(s@) {
                Some(a) => Ok::<Action, ()>(a),
                None => Err(()),
            },
    {
        Action::from_name(s)
    }
}

///The lines of a job that runs an execution: announce it, print the date, run the binary on its configuration writing its result.
pub open spec fn execution_lines(execution_id: usize, binary: Seq<char>, path: Seq<char>) -> Seq<char> {
    "echo execution "@ + decimal(execution_id as nat) + "\n/bin/date\n"@ + binary + " "@ + path + "/local.cfg --results="@
        + path + "/local.result"@
}

///Simulations to be run in a slurm/other job.
pub struct Job {
    pub execution_code_vec: Vec<String>,
    pub execution_id_vec: Vec<usize>,
}

impl Job {
    pub fn new() -> (j: Job)
        ensures
            j.execution_code_vec@.len() == 0,
            j.execution_id_vec@.len() == 0,
    {
        Job { execution_code_vec: Vec::new(), execution_id_vec: Vec::new() }
    }

    ///The number of executions in the job.
    pub fn len(&self) -> (n: usize)
        ensures
            n == self.execution_id_vec@.len(),
    {
        self.execution_id_vec.len()
    }

    ///Adds an execution, by its id, with the binary to run and the path of its directory, as text.
    pub fn add_execution(&mut self, execution_id: usize, binary: &str, execution_path_str: &str)
        ensures
            final(self).execution_id_vec@ == old(self).execution_id_vec@.push(execution_id),
            final(self).execution_code_vec@.len() == old(self).execution_code_vec@.len() + 1,
            forall|i: int| 0 <= i < old(self).execution_code_vec@.len() ==>
                #[trigger] final(self).execution_code_vec@[i] == old(self).execution_code_vec@[i],
            final(self).execution_code_vec@.last()@ == execution_lines(execution_id, binary@, execution_path_str@),
    {
        let mut line = String::new();
        line.append("echo execution ");
        append_decimal(&mut line, execution_id);
        line.append("\n/bin/date\n");
        line.append(binary);
        line.append(" ");
        line.append(execution_path_str);
        line.append("/local.cfg --results=");
        line.append(execution_path_str);
        line.append("/local.result");
        proof {
            assert(line@ =~= execution_lines(execution_id, binary@, execution_path_str@));
        }
        self.execution_code_vec.push(line);
        self.execution_id_vec.push(execution_id);
    }

    ///The lines the job runs: those of its executions, one per line, then it prints the date and that it finished.
    pub fn job_lines(&self) -> (s: String)
        ensures
            s@ == joined_lines(self.execution_code_vec@) + "\n/bin/date\necho job finished\n"@,
    {
        let mut s = String::new();
        let mut i: usize = 0;
        while i < self.execution_code_vec.len()
            invariant
                i <= self.execution_code_vec@.len(),
                s@ == joined_lines(self.execution_code_vec@.take(i as int)),
            decreases self.execution_code_vec@.len() - i,
        {
            if i > 0 {
                s.append("\n");
            }
            s.append(self.execution_code_vec[i].as_str());
            proof {
                assert(self.execution_code_vec@.take(i + 1).drop_last() == self.execution_code_vec@.take(i as int));
            }
            i = i + 1;
        }
        proof {
            assert(self.execution_code_vec@.take(self.execution_code_vec@.len() as int) == self.execution_code_vec@);
        }
        s.append("\n/bin/date\necho job finished\n");
        s
    }

    ///The slurm script that runs the job lines, with its output and error files named after `prefix`, its time limit and, if given, its memory.
    pub fn slurm_script(&self, prefix: &str, slurm_time: &str, slurm_mem: Option<&str>, job_lines: &str) -> (s: String)
        ensures
            s@ == slurm_script_text(prefix@, slurm_time@, match slurm_mem { Some(m) => Some(m@), None => None }, job_lines@),
    {
        let mut s = String::new();
        s.append("#!/bin/bash\n#SBATCH --job-name=CAMINOS\n#SBATCH -D .\n#SBATCH --output=");
        s.append(prefix);
        s.append("-%j.out\n#SBATCH --error=");
        s.append(prefix);
        s.append("-%j.err\n#SBATCH --cpus-per-task=1\n#SBATCH --ntasks=1\n#SBATCH --time=");
        s.append(slurm_time);
        s.append("\n");
        match slurm_mem {
            Some(m) => {
                s.append("#SBATCH --mem=");
                s.append(m);
                s.append("\n");
            },
            None => {},
        }
        s.append("\n");
        s.append(job_lines);
        s.append("\n\n");
        proof {
            let mem_part = match slurm_mem { Some(m) => "#SBATCH --mem="@ + m@ + "\n"@, None => Seq::<char>::empty() };
            assert(s@ =~= slurm_script_text(prefix@, slurm_time@, match slurm_mem { Some(m) => Some(m@), None => None }, job_lines@));
        }
        s
    }

    ///The description of a launched job for the journal: `slurm_id=internal_id[ids], ` with the execution ids separated by commas.
    pub fn journal_entry(&self, slurm_job_id: usize, internal_job_id: usize) -> (s: String)
        ensures
            s@ == decimal(slurm_job_id as nat) + "="@ + decimal(internal_job_id as nat) + "["@
                + joined_ids(self.execution_id_vec@) + "], "@,
    {
        let mut s = String::new();
        append_decimal(&mut s, slurm_job_id);
        s.append("=");
        append_decimal(&mut s, internal_job_id);
        s.append("[");
        let ghost start = s@;
        let mut i: usize = 0;
        while i < self.execution_id_vec.len()
            invariant
                i <= self.execution_id_vec@.len(),
                s@ == start + joined_ids(self.execution_id_vec@.take(i as int)),
            decreases self.execution_id_vec@.len() - i,
        {
            if i > 0 {
                s.append(",");
            }
            append_decimal(&mut s, self.execution_id_vec[i]);
            proof {
                assert(self.execution_id_vec@.take(i + 1).drop_last() == self.execution_id_vec@.take(i as int));
            }
            i = i + 1;
        }
        proof {
            assert(self.execution_id_vec@.take(self.execution_id_vec@.len() as int) == self.execution_id_vec@);
        }
        s.append("], ");
        s
    }
}

///Some texts one per line: joined by newlines, with none at the end.
pub open spec fn joined_lines(lines: Seq<String>) -> Seq<char>
    decreases lines.len(),
{
    if lines.len() == 0 {
        Seq::empty()
    } else if lines.len() == 1 {
        lines[0]@
    } else {
        joined_lines(lines.drop_last()) + "\n"@ + lines.last()@
    }
}

///Some numbers in decimal, separated by commas.
pub open spec fn joined_ids(ids: Seq<usize>) -> Seq<char>
    decreases ids.len(),
{
    if ids.len() == 0 {
        Seq::empty()
    } else if ids.len() == 1 {
        decimal(ids[0] as nat)
    } else {
        joined_ids(ids.drop_last()) + ","@ + decimal(ids.last() as nat)
    }
}

///The text of a slurm script.
pub open spec fn slurm_script_text(prefix: Seq<char>, time: Seq<char>, mem: Option<Seq<char>>, job_lines: Seq<char>) -> Seq<char> {
    "#!/bin/bash\n#SBATCH --job-name=CAMINOS\n#SBATCH -D .\n#SBATCH --output="@ + prefix
        + "-%j.out\n#SBATCH --error="@ + prefix
        + "-%j.err\n#SBATCH --cpus-per-task=1\n#SBATCH --ntasks=1\n#SBATCH --time="@ + time + "\n"@
        + match mem { Some(m) => "#SBATCH --mem="@ + m + "\n"@, None => Seq::empty() }
        + "\n"@ + job_lines + "\n\n"@
}


///Whether a character has the Unicode `White_Space` property, as std's `char::is_whitespace` tells.
pub open spec fn white_space(c: char) -> bool {
    let x = c as u32;
    (0x9 <= x <= 0xD) || x == 0x20 || x == 0x85 || x == 0xA0 || x == 0x1680 || (0x2000 <= x <= 0x200A)
        || x == 0x2028 || x == 0x2029 || x == 0x202F || x == 0x205F || x == 0x3000
}

///Whether a character is white space.
fn is_white_space(c: char) -> (b: bool)
    ensures
        b == white_space(c),
{
    let x = c as u32;
    (0x9 <= x && x <= 0xD) || x == 0x20 || x == 0x85 || x == 0xA0 || x == 0x1680 || (0x2000 <= x && x <= 0x200A)
        || x == 0x2028 || x == 0x2029 || x == 0x202F || x == 0x205F || x == 0x3000
}

///The words of a text: its maximal runs of characters that are not white space, in order.
pub open spec fn words(text: Seq<char>) -> Seq<Seq<char>>
    decreases text.len(),
{
    if text.len() == 0 {
        Seq::empty()
    } else {
        let rest = words(text.drop_last());
        let c = text.last();
        if white_space(c) {
            rest
        } else if text.len() >= 2 && !white_space(text[text.len() - 2]) {
            rest.drop_last().push(rest.last().push(c))
        } else {
            rest.push(seq![c])
        }
    }
}

proof fn lemma_words_nonempty_last(text: Seq<char>)
    requires
        text.len() > 0,
        !white_space(text.last()),
    ensures
        words(text).len() > 0,
        words(text).last().len() > 0,
        words(text).last().last() == text.last(),
    decreases text.len(),
{
    if text.len() >= 2 && !white_space(text[text.len() - 2]) {
        assert(text.drop_last().last() == text[text.len() - 2]);
        lemma_words_nonempty_last(text.drop_last());
    }
}

///The value of a numeral of decimal digits.
pub open spec fn digits_value(s: Seq<char>) -> int
    decreases s.len(),
{
    if s.len() == 0 { 0 } else { digits_value(s.drop_last()) * 10 + (s.last() as int - '0' as int) }
}

///All the characters are decimal digits.
pub open spec fn all_digits(s: Seq<char>) -> bool {
    forall|i: int| 0 <= i < s.len() ==> '0' <= #[trigger] s[i] && s[i] <= '9'
}

///How a word reads as a `usize`, as std's `str::parse` reads it: an optional `+` and then one or more decimal digits whose value fits.
pub open spec fn parsed_usize(word: Seq<char>) -> Option<usize> {
    let body = if word.len() > 0 && word[0] == '+' { word.drop_first() } else { word };
    if body.len() > 0 && all_digits(body) && digits_value(body) <= usize::MAX {
        Some(digits_value(body) as usize)
    } else {
        None
    }
}

///Reads a word as a `usize`.
pub fn parse_usize(word: &str) -> (r: Option<usize>)
    ensures
        r == parsed_usize(word@),
{
    let n = word.unicode_len();
    let mut start: usize = 0;
    if n > 0 && word.get_char(0) == '+' {
        start = 1;
    }
    let ghost body = if word@.len() > 0 && word@[0] == '+' { word@.drop_first() } else { word@ };
    if start == n {
        return None;
    }
    let mut value: usize = 0;
    let mut i: usize = start;
    while i < n
        invariant
            start <= i <= n,
            n == word@.len(),
            start < n,
            body == word@.skip(start as int),
            body == (if word@.len() > 0 && word@[0] == '+' { word@.drop_first() } else { word@ }),
            all_digits(body.take(i - start)),
            value == digits_value(body.take(i - start)),
        decreases n - i,
    {
        let c = word.get_char(i);
        proof {
            assert(body.take(i + 1 - start).drop_last() == body.take(i - start));
            assert(body.take(i + 1 - start).last() == c);
        }
        if c < '0' || c > '9' {
            proof {
                assert(!all_digits(body)) by {
                    assert(body[i - start] == c);
                }
            }
            return None;
        }
        let d = (c as u32 - '0' as u32) as usize;
        if value > (usize::MAX - d) / 10 {
            proof {
                if all_digits(body) {
                    lemma_digits_value_grows(body, (i + 1 - start) as int);
                }
                assert(digits_value(body.take(i + 1 - start)) > usize::MAX) by (nonlinear_arith)
                    requires
                        digits_value(body.take(i + 1 - start)) == value * 10 + d,
                        value > (usize::MAX - d) / 10,
                        0 <= d <= 9;
            }
            return None;
        }
        value = value * 10 + d;
        i = i + 1;
    }
    proof {
        assert(body.take(n - start) == body);
    }
    Some(value)
}

proof fn lemma_digits_value_grows(s: Seq<char>, k: int)
    requires
        all_digits(s),
        0 <= k <= s.len(),
    ensures
        digits_value(s) >= digits_value(s.take(k)),
        digits_value(s.take(k)) >= 0,
    decreases s.len(),
{
    if s.len() > 0 {
        if k < s.len() {
            lemma_digits_value_grows(s.drop_last(), k);
            assert(s.drop_last().take(k) == s.take(k));
        } else {
            assert(s.take(k) == s);
            lemma_digits_value_grows(s.drop_last(), s.len() - 1);
        }
        assert(digits_value(s.drop_last()) >= 0) by {
            lemma_digits_value_grows(s.drop_last(), 0);
        }
        assert(digits_value(s) >= digits_value(s.drop_last())) by (nonlinear_arith)
            requires
                digits_value(s) == digits_value(s.drop_last()) * 10 + (s.last() as int - '0' as int),
                digits_value(s.drop_last()) >= 0,
                s.last() as int - '0' as int >= 0;
    }
}

///The numbers among some words, in order: those that read as a `usize`.
pub open spec fn numbers_among(ws: Seq<Seq<char>>) -> Seq<usize>
    decreases ws.len(),
{
    if ws.len() == 0 {
        Seq::empty()
    } else {
        match parsed_usize(ws.last()) {
            Some(v) => numbers_among(ws.drop_last()).push(v),
            None => numbers_among(ws.drop_last()),
        }
    }
}

///Splits a text into its words.
pub fn split_words(text: &str) -> (r: Vec<String>)
    ensures
        r@.len() == words(text@).len(),
        forall|i: int| 0 <= i < r@.len() ==> #[trigger] r@[i]@ == words(text@)[i],
{
    let n = text.unicode_len();
    let mut r: Vec<String> = Vec::new();
    let mut current = String::new();
    let mut in_word = false;
    let mut i: usize = 0;
    while i < n
        invariant
            i <= n,
            n == text@.len(),
            in_word == (i > 0 && !white_space(text@[i - 1])),
            in_word ==> r@.len() + 1 == words(text@.take(i as int)).len()
                && current@ == words(text@.take(i as int)).last(),
            !in_word ==> r@.len() == words(text@.take(i as int)).len(),
            forall|k: int| 0 <= k < r@.len() ==> #[trigger] r@[k]@ == words(text@.take(i as int))[k],
        decreases n - i,
    {
        let c = text.get_char(i);
        let ghost prefix = text@.take(i + 1);
        proof {
            assert(prefix.drop_last() == text@.take(i as int));
            assert(prefix.last() == c);
            if i > 0 {
                assert(prefix[prefix.len() - 2] == text@[i - 1]);
            }
        }
        if is_white_space(c) {
            if in_word {
                r.push(current);
                current = String::new();
                in_word = false;
            }
        } else {
            let s = crate::text::char_to_string(c);
            if in_word {
                current.append(s.as_str());
            } else {
                current = s;
                in_word = true;
            }
        }
        i = i + 1;
    }
    if in_word {
        r.push(current);
    }
    proof {
        assert(text@.take(n as int) == text@);
    }
    r
}

///The job id that `sbatch` answered: the only number among the words of its output; `None` when there are none or several.
pub fn job_id_from_output(output: &str) -> (r: Option<usize>)
    ensures
        r == (if numbers_among(words(output@)).len() == 1 { Some(numbers_among(words(output@))[0]) } else { None }),
{
    let ws = split_words(output);
    let ghost wseq = words(output@);
    let mut ids: Vec<usize> = Vec::new();
    let mut i: usize = 0;
    while i < ws.len()
        invariant
            i <= ws@.len(),
            ws@.len() == wseq.len(),
            forall|k: int| 0 <= k < ws@.len() ==> #[trigger] ws@[k]@ == wseq[k],
            ids@ == numbers_among(wseq.take(i as int)),
        decreases ws@.len() - i,
    {
        proof {
            assert(wseq.take(i + 1).drop_last() == wseq.take(i as int));
            assert(wseq.take(i + 1).last() == ws@[i as int]@);
        }
        match parse_usize(ws[i].as_str()) {
            Some(v) => ids.push(v),
            None => {},
        }
        i = i + 1;
    }
    proof {
        assert(wseq.take(wseq.len() as int) == wseq);
    }
    if ids.len() == 1 { Some(ids[0]) } else { None }
}


///Whether an action draws the outputs once the experiments are gone through.
pub open spec fn draws(action: Action) -> bool {
    action == Action::LocalAndOutput || action == Action::Output
}

///Whether an action draws the outputs once the experiments are gone through.
pub fn action_draws(action: Action) -> (b: bool)
    ensures
        b == draws(action),
{
    match action {
        Action::LocalAndOutput => true,
        Action::Output => true,
        _ => false,
    }
}

///How many executions go in each job sent to slurm: enough for the experiments to fit in `maximum_jobs` jobs, when that is
///limited, or the `job_pack_size` asked for, which may only change a size of 1, or be 1 itself.
pub open spec fn pack_size(experiments: nat, maximum_jobs: Option<usize>, job_pack_size: Option<usize>) -> nat {
    let by_jobs: nat = match maximum_jobs {
        Some(m) => ((experiments + m - 1) / (m as int)) as nat,
        None => 1,
    };
    match job_pack_size {
        Some(v) => v as nat,
        None => by_jobs,
    }
}

///How many executions go in each job sent to slurm.
pub fn slurm_job_pack_size(experiments: usize, maximum_jobs: Option<usize>, job_pack_size: Option<usize>) -> (r: usize)
    requires
        maximum_jobs matches Some(m) ==> m > 0 && experiments + m <= usize::MAX && (experiments + m - 1) / (m as int) >= 1,
        job_pack_size matches Some(v) ==> (maximum_jobs matches Some(m) ==> ((experiments + m - 1) / (m as int) == 1 || v == 1)),
    ensures
        r == pack_size(experiments as nat, maximum_jobs, job_pack_size),
{
    let mut size: usize = 1;
    match maximum_jobs {
        Some(m) => {
            size = (experiments + m - 1) / m;
        },
        None => {},
    }
    match job_pack_size {
        Some(v) => {
            size = v;
        },
        None => {},
    }
    size
}

///What is known of an experiment when an action reaches it.
#[derive(Clone, Copy, Debug, PartialEq, Eq, Structural)]
pub struct ExperimentState {
    ///There is a result file.
    pub has_file: bool,
    ///The result file has a result.
    pub has_content: bool,
    ///The result is among the packed results.
    pub is_packed: bool,
    ///The result was just merged from an external source.
    pub is_merged: bool,
    ///The experiment is waiting in slurm.
    pub on_slurm: bool,
}

///What an action does with one experiment.
#[derive(Clone, Copy, Debug, PartialEq, Eq, Structural)]
pub enum ExperimentStep {
    ///It has its result already.
    Completed,
    ///Run its simulation here and write its result.
    Simulate,
    ///Add its execution to the job being filled.
    AddToJob,
    ///Bring its result from the remote.
    Pull,
    ///Look for errors in its slurm output.
    Check,
    ///Nothing to do.
    Skip,
}

///Whether an experiment has its result.
pub open spec fn completed(state: ExperimentState) -> bool {
    state.has_content || state.is_packed || state.is_merged
}

///What an action does with an experiment: nothing more when it has its result; else simulate it for the local actions,
///add it to a job for slurm unless it is already there, pull it, check it, or nothing for the other actions.
pub open spec fn step_for(action: Action, state: ExperimentState) -> ExperimentStep {
    if completed(state) {
        ExperimentStep::Completed
    } else {
        match action {
            Action::Local | Action::LocalAndOutput => ExperimentStep::Simulate,
            Action::Slurm => if state.on_slurm { ExperimentStep::Skip } else { ExperimentStep::AddToJob },
            Action::Pull => ExperimentStep::Pull,
            Action::Check => ExperimentStep::Check,
            _ => ExperimentStep::Skip,
        }
    }
}

///The two local actions treat every experiment alike: whatever has no result is simulated, whatever has one is left.
pub proof fn lemma_local_actions_agree(state: ExperimentState)
    ensures
        step_for(Action::LocalAndOutput, state) == step_for(Action::Local, state),
        !completed(state) ==> step_for(Action::Local, state) == ExperimentStep::Simulate,
        completed(state) ==> step_for(Action::Local, state) == ExperimentStep::Completed,
{
}

///What an action does with an experiment.
pub fn experiment_step(action: Action, state: ExperimentState) -> (s: ExperimentStep)
    ensures
        s == step_for(action, state),
        (state.has_content || state.is_packed || state.is_merged) ==> s == ExperimentStep::Completed,
        !(state.has_content || state.is_packed || state.is_merged) && (action == Action::Local || action == Action::LocalAndOutput)
            ==> s == ExperimentStep::Simulate,
        !(state.has_content || state.is_packed || state.is_merged) && action == Action::Slurm
            ==> s == if state.on_slurm { ExperimentStep::Skip } else { ExperimentStep::AddToJob },
        !(state.has_content || state.is_packed || state.is_merged) && action == Action::Pull ==> s == ExperimentStep::Pull,
        !(state.has_content || state.is_packed || state.is_merged) && action == Action::Check ==> s == ExperimentStep::Check,
        s == ExperimentStep::Simulate ==> action == Action::Local || action == Action::LocalAndOutput,
{
    if state.has_content || state.is_packed || state.is_merged {
        ExperimentStep::Completed
    } else {
        match action {
            Action::Local => ExperimentStep::Simulate,
            Action::LocalAndOutput => ExperimentStep::Simulate,
            Action::Slurm => if state.on_slurm { ExperimentStep::Skip } else { ExperimentStep::AddToJob },
            Action::Pull => ExperimentStep::Pull,
            Action::Check => ExperimentStep::Check,
            _ => ExperimentStep::Skip,
        }
    }
}

///The counts an action keeps of the experiments it went through, as they were before it acted.
#[derive(Clone, Copy, Debug, PartialEq, Eq, Structural)]
pub struct ActionTally {
    ///Experiments with their result.
    pub completed: usize,
    ///Experiments without result file: nothing was done with them yet.
    pub inactive: usize,
    ///Experiments with a result file but no result: something was done, perhaps an execution error.
    pub active: usize,
}

impl ActionTally {
    pub fn new() -> (t: ActionTally)
        ensures
            t == (ActionTally { completed: 0, inactive: 0, active: 0 }),
    {
        ActionTally { completed: 0, inactive: 0, active: 0 }
    }

    ///Counts an experiment: without result file it is inactive; with its result, completed; with a file but no result, active.
    pub fn count(&mut self, state: ExperimentState)
        requires
            old(self).completed < usize::MAX,
            old(self).inactive < usize::MAX,
            old(self).active < usize::MAX,
        ensures
            final(self).inactive == old(self).inactive + if state.has_file { 0int } else { 1int },
            final(self).completed == old(self).completed + if completed(state) { 1int } else { 0int },
            final(self).active == old(self).active + if !completed(state) && state.has_file { 1int } else { 0int },
    {
        if !state.has_file {
            self.inactive = self.inactive + 1;
        }
        if state.has_content || state.is_packed || state.is_merged {
            self.completed = self.completed + 1;
        } else if state.has_file {
            self.active = self.active + 1;
        }
    }
}

///A job is sent once it holds as many executions as the pack size.
pub fn job_is_full(job_len: usize, job_pack_size: usize) -> (b: bool)
    ensures
        b == (job_len >= job_pack_size),
{
    job_len >= job_pack_size
}

} // verus!
