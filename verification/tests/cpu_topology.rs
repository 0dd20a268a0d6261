use krata::cpu_topology::{
    class_to_str, topology_header, topology_rows, HostCpuTopologyClass, HostCpuTopologyCommand,
    HostCpuTopologyFormat, HostCpuTopologyInfo, TopologyOutput,
};

fn cpus() -> Vec<HostCpuTopologyInfo> {
    vec![
        HostCpuTopologyInfo { core: 0, socket: 0, node: 0, thread: 0, class: HostCpuTopologyClass::Performance },
        HostCpuTopologyInfo { core: 12, socket: 1, node: 3, thread: 1, class: HostCpuTopologyClass::Efficiency },
    ]
}

#[test]
fn class_names() {
    assert_eq!(class_to_str(HostCpuTopologyClass::Standard), "Standard");
    assert_eq!(class_to_str(HostCpuTopologyClass::Performance), "Performance");
    assert_eq!(class_to_str(HostCpuTopologyClass::Efficiency), "Efficiency");
}

#[test]
fn table_rows_number_the_cpus() {
    assert_eq!(topology_header(), vec!["id", "node", "socket", "core", "thread", "class"]);
    let rows = topology_rows(&cpus());
    assert_eq!(rows[0], vec!["0", "0", "0", "0", "0", "Performance"]);
    assert_eq!(rows[1], vec!["1", "3", "1", "12", "1", "Efficiency"]);
}

#[test]
fn formats_choose_outputs() {
    let table = HostCpuTopologyCommand { format: HostCpuTopologyFormat::Table };
    assert!(matches!(table.run(&vec![]), TopologyOutput::Nothing));
    match table.run(&cpus()) {
        TopologyOutput::Table { header, rows } => {
            assert_eq!(header.len(), 6);
            assert_eq!(rows.len(), 2);
        }
        _ => panic!("expected a table"),
    }
    let run = |format| HostCpuTopologyCommand { format }.run(&cpus());
    assert!(matches!(run(HostCpuTopologyFormat::Json), TopologyOutput::JsonArray { pretty: false }));
    assert!(matches!(run(HostCpuTopologyFormat::JsonPretty), TopologyOutput::JsonArray { pretty: true }));
    assert!(matches!(run(HostCpuTopologyFormat::Yaml), TopologyOutput::YamlArray));
    assert!(matches!(run(HostCpuTopologyFormat::Jsonl), TopologyOutput::JsonLines));
    assert!(matches!(run(HostCpuTopologyFormat::KeyValue), TopologyOutput::KeyValueLines));
}
