//! Presentation of the host CPU topology: which output a format asks for and
//! the rows of the table form.
use vstd::prelude::*;

use crate::text::{decimal, u64_to_string, str_chars, string_from_chars};

verus! {

/// The kind of a CPU core.
#[derive(Debug, Clone, Copy, PartialEq, Eq, Structural)]
pub enum HostCpuTopologyClass {
    Standard,
    Performance,
    Efficiency,
}

pub open spec fn class_name(class: HostCpuTopologyClass) -> Seq<char> {
    match class {
        HostCpuTopologyClass::Standard => "Standard"@,
        HostCpuTopologyClass::Performance => "Performance"@,
        HostCpuTopologyClass::Efficiency => "Efficiency"@,
    }
}

/// The display name of a core class.
pub fn class_to_str(input: HostCpuTopologyClass) -> (s: String)
    ensures
        s@ == class_name(input),
{
    let v = match input {
        HostCpuTopologyClass::Standard => str_chars("Standard"),
        HostCpuTopologyClass::Performance => str_chars("Performance"),
        HostCpuTopologyClass::Efficiency => str_chars("Efficiency"),
    };
    string_from_chars(v.as_slice())
}

/// One logical CPU of the host and where it sits.
#[derive(Debug, Clone, Copy, PartialEq, Eq, Structural)]
pub struct HostCpuTopologyInfo {
    pub core: u32,
    pub socket: u32,
    pub node: u32,
    pub thread: u32,
    pub class: HostCpuTopologyClass,
}

/// The output formats of the topology command.
#[derive(Debug, Clone, Copy, PartialEq, Eq, Structural)]
pub enum HostCpuTopologyFormat {
    Table,
    Json,
    JsonPretty,
    Jsonl,
    Yaml,
    KeyValue,
}

/// The command that displays the host CPU topology.
#[derive(Debug, Clone, Copy, PartialEq, Eq, Structural)]
pub struct HostCpuTopologyCommand {
    pub format: HostCpuTopologyFormat,
}

/// What the command prints for the CPUs it was given.
#[derive(Debug, Clone)]
pub enum TopologyOutput {
    /// Nothing at all: the table form of an empty topology.
    Nothing,
    /// A table with this header and these rows.
    Table { header: Vec<String>, rows: Vec<Vec<String>> },
    /// One JSON array of all CPUs, compact or pretty.
    JsonArray { pretty: bool },
    /// One YAML sequence of all CPUs.
    YamlArray,
    /// One compact JSON object per CPU, one per line.
    JsonLines,
    /// One line of `key=value` pairs per CPU.
    KeyValueLines,
}

/// The column titles of the table.
pub open spec fn table_header() -> Seq<Seq<char>> {
    seq!["id"@, "node"@, "socket"@, "core"@, "thread"@, "class"@]
}

/// The table row of the CPU at position `i`.
pub open spec fn table_row(i: nat, cpu: HostCpuTopologyInfo) -> Seq<Seq<char>> {
    seq![
        decimal(i),
        decimal(cpu.node as nat),
        decimal(cpu.socket as nat),
        decimal(cpu.core as nat),
        decimal(cpu.thread as nat),
        class_name(cpu.class),
    ]
}

/// The texts of a row.
pub open spec fn row_view(row: Vec<String>) -> Seq<Seq<char>> {
    row@.map_values(|s: String| s@)
}

fn text(s: &str) -> (r: String)
    ensures
        r@ == s@,
{
    string_from_chars(str_chars(s).as_slice())
}

/// The column titles of the table.
pub fn topology_header() -> (h: Vec<String>)
    ensures
        row_view(h) == table_header(),
{
    let mut h: Vec<String> = Vec::new();
    h.push(text("id"));
    h.push(text("node"));
    h.push(text("socket"));
    h.push(text("core"));
    h.push(text("thread"));
    h.push(text("class"));
    assert(row_view(h) =~= table_header());
    h
}

/// The table rows of the CPUs, numbered from 0 in the order given.
pub fn topology_rows(cpus: &Vec<HostCpuTopologyInfo>) -> (rows: Vec<Vec<String>>)
    ensures
        rows@.len() == cpus@.len(),
        forall|i: int| 0 <= i < cpus@.len() ==> row_view(#[trigger] rows@[i]) == table_row(i as nat, cpus@[i]),
{
    let mut rows: Vec<Vec<String>> = Vec::new();
    let mut i: usize = 0;
    while i < cpus.len()
        invariant
            i <= cpus@.len(),
            rows@.len() == i,
            forall|j: int| 0 <= j < i ==> row_view(#[trigger] rows@[j]) == table_row(j as nat, cpus@[j]),
        decreases cpus@.len() - i,
    {
        let cpu = cpus[i];
        let mut row: Vec<String> = Vec::new();
        row.push(u64_to_string(i as u64));
        row.push(u64_to_string(cpu.node as u64));
        row.push(u64_to_string(cpu.socket as u64));
        row.push(u64_to_string(cpu.core as u64));
        row.push(u64_to_string(cpu.thread as u64));
        row.push(class_to_str(cpu.class));
        assert(row_view(row) =~= table_row(i as nat, cpu));
        rows.push(row);
        i = i + 1;
    }
    rows
}

impl HostCpuTopologyCommand {
    /// What the command prints for the given CPUs in its format.
    pub fn run(&self, cpus: &Vec<HostCpuTopologyInfo>) -> (out: TopologyOutput)
        ensures
            match self.format {
                HostCpuTopologyFormat::Table => if cpus@.len() == 0 {
                    out is Nothing
                } else {
                    match out {
                        TopologyOutput::Table { header, rows } => {
                            &&& row_view(header) == table_header()
                            &&& rows@.len() == cpus@.len()
                            &&& forall|i: int|
                                0 <= i < cpus@.len() ==> row_view(#[trigger] rows@[i]) == table_row(
                                    i as nat,
                                    cpus@[i],
                                )
                        },
                        _ => false,
                    }
                },
                HostCpuTopologyFormat::Json => out == (TopologyOutput::JsonArray { pretty: false }),
                HostCpuTopologyFormat::JsonPretty => out == (TopologyOutput::JsonArray { pretty: true }),
                HostCpuTopologyFormat::Yaml => out is YamlArray,
                HostCpuTopologyFormat::Jsonl => out is JsonLines,
                HostCpuTopologyFormat::KeyValue => out is KeyValueLines,
            },
    {
        match self.format {
            HostCpuTopologyFormat::Table => {
                if cpus.len() == 0 {
                    TopologyOutput::Nothing
                } else {
                    TopologyOutput::Table { header: topology_header(), rows: topology_rows(cpus) }
                }
            },
            HostCpuTopologyFormat::Json => TopologyOutput::JsonArray { pretty: false },
            HostCpuTopologyFormat::JsonPretty => TopologyOutput::JsonArray { pretty: true },
            HostCpuTopologyFormat::Yaml => TopologyOutput::YamlArray,
            HostCpuTopologyFormat::Jsonl => TopologyOutput::JsonLines,
            HostCpuTopologyFormat::KeyValue => TopologyOutput::KeyValueLines,
        }
    }
}

/// The text shown in the column titled `title` for the CPU at position `i`:
/// the position under `id`, the core's class under `class`, and under each
/// other title the field of that name.
pub open spec fn column_value(title: Seq<char>, i: nat, cpu: HostCpuTopologyInfo) -> Seq<char> {
    if title == "id"@ {
        decimal(i)
    } else if title == "node"@ {
        decimal(cpu.node as nat)
    } else if title == "socket"@ {
        decimal(cpu.socket as nat)
    } else if title == "core"@ {
        decimal(cpu.core as nat)
    } else if title == "thread"@ {
        decimal(cpu.thread as nat)
    } else if title == "class"@ {
        class_name(cpu.class)
    } else {
        Seq::empty()
    }
}

/// Each cell of a CPU's row holds what its column's title names, and the
/// titles come in the order id, node, socket, core, thread, class.
pub proof fn law_cells_match_their_titles(i: nat, cpu: HostCpuTopologyInfo)
    ensures
        table_header() == seq!["id"@, "node"@, "socket"@, "core"@, "thread"@, "class"@],
        table_row(i, cpu).len() == table_header().len(),
        forall|k: int|
            0 <= k < table_header().len() ==> #[trigger] table_row(i, cpu)[k] == column_value(
                table_header()[k],
                i,
                cpu,
            ),
{
    reveal_strlit("id");
    reveal_strlit("node");
    reveal_strlit("socket");
    reveal_strlit("core");
    reveal_strlit("thread");
    reveal_strlit("class");
    assert("id"@.len() == 2 && "id"@[0] == 'i');
    assert("node"@.len() == 4 && "node"@[0] == 'n');
    assert("socket"@.len() == 6 && "socket"@[0] == 's');
    assert("core"@.len() == 4 && "core"@[0] == 'c');
    assert("thread"@.len() == 6 && "thread"@[0] == 't');
    assert("class"@.len() == 5 && "class"@[0] == 'c');
}

} // verus!
