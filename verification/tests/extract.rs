//! Tables of system information.

use tracefox::engine::report::infer_raid_by_pool;
use tracefox::extract::path::{select, val};
use tracefox::extract::{extract, join_tables, json_paths, Table};
use tracefox::outside::json::Json;
use tracefox::row::Row;
use tracefox::rules::{Field, Source, SystemRule};

fn sizes(text: &str, kib: bool) -> Option<String> {
    let n = text.parse::<f64>().ok()?;
    Some(format!("{} {}", if kib { "KiB" } else { "B" }, n))
}

fn column(name: &str, path: &str) -> Field {
    Field {
        name: name.into(),
        path: path.into(),
        format: String::new(),
        unit: String::new(),
        missing: String::new(),
        wide: false,
        view: String::new(),
        capture: String::new(),
    }
}

#[test]
fn arrays_keep_disk_parent() {
    let r = SystemRule {
        selector: "disk.devices[].smart.report[]".into(),
        fields: vec![column("盘", "$parent.name"), column("值", "raw")],
        ..SystemRule::default()
    };
    let t = extract(
        &r,
        r#"{"disk":{"devices":[{"name":"a","smart":{"report":[{"raw":1}]}},{"name":"b","smart":{"report":[{"raw":2}]}}]}}"#,
        "x",
        &sizes,
    )
    .unwrap();
    assert_eq!(t.rows[1].get("盘").unwrap(), "b");
    assert_eq!(t.rows.len(), 2);
}

#[test]
fn lsblk_rule_keeps_complete_source_text() {
    let rule = SystemRule {
        id: "block".into(),
        source: Source { pattern: "cmd/lsblk.log".into(), mode: "exact".into() },
        kind: "columns".into(),
        ..SystemRule::default()
    };
    let text = "NAME TYPE\npool1-md0 linear\n";
    let table = extract(&rule, text, "cmd/lsblk.log", &sizes).unwrap();
    assert_eq!(table.raw_text, text);
}

#[test]
fn linear_lsblk_is_reported_as_jbod_without_rewriting_rows() {
    let row = |name: &str, kind: &str| {
        let mut row = Row::new();
        row.insert("设备树".into(), name.into());
        row.insert("类型".into(), kind.into());
        row
    };
    let block = Table {
        id: "block".into(),
        name: "块设备与挂载".into(),
        group: "补充信息".into(),
        view: "table".into(),
        fields: vec![],
        rows: vec![row("pool1-md0", "linear"), row("pool2-md1", "raid1")],
        storage: vec![],
        raw_text: "NAME TYPE\npool1-md0 linear\n".into(),
        source: "cmd/lsblk.log".into(),
        warning: String::new(),
    };
    let raid = infer_raid_by_pool(&block);
    assert_eq!(raid.get("Storage Pool 1"), Some(&"JBOD".to_owned()));
    assert_eq!(raid.get("Storage Pool 2"), Some(&"RAID1".to_owned()));
    assert_eq!(block.rows[0].get("类型").unwrap(), "linear");
}

#[test]
fn formats_captures_and_missing_values() {
    let mut size = column("大小", "size");
    size.format = "bytes".into();
    let mut kib = column("内存", "size");
    kib.format = "kib".into();
    let mut time = column("时间", "at");
    time.format = "unix".into();
    let mut part = column("编号", "name");
    part.capture = "disk-(\\d+)".into();
    let mut unit = column("温度", "temp");
    unit.unit = "°C".into();
    let mut gone = column("缺失", "nothing");
    gone.missing = "无".into();
    let r = SystemRule {
        fields: vec![size, kib, time, part, unit, gone],
        ..SystemRule::default()
    };
    let t = extract(
        &r,
        r#"{"size": 2048, "at": 0, "name": "disk-42", "temp": 31}"#,
        "sysinfo.json",
        &sizes,
    )
    .unwrap();
    let row = &t.rows[0];
    assert_eq!(row.get("大小").unwrap(), "B 2048");
    assert_eq!(row.get("内存").unwrap(), "KiB 2048");
    assert!(row.get("时间").unwrap().starts_with("1970-01-01"));
    assert_eq!(row.get("编号").unwrap(), "42");
    assert_eq!(row.get("温度").unwrap(), "31 °C");
    assert_eq!(row.get("缺失").unwrap(), "无");
}

#[test]
fn texts_give_rows_by_keys_sections_columns_and_expressions() {
    let kv = SystemRule {
        kind: "kv".into(),
        fields: vec![column("型号", "Model"), column("版本", "Version")],
        ..SystemRule::default()
    };
    let t = extract(&kv, "Model: DXP\nVersion = 1.2\n", "x", &sizes).unwrap();
    assert_eq!(t.rows[0].get("型号").unwrap(), "DXP");
    let re = SystemRule {
        kind: "regex".into(),
        pattern: r"(?P<dev>sd[a-z]) (\d+)".into(),
        fields: vec![column("设备", "dev"), column("数", "2")],
        ..SystemRule::default()
    };
    let t = extract(&re, "sda 1\nsdb 2\n", "x", &sizes).unwrap();
    assert_eq!(t.rows.len(), 2);
    assert_eq!(t.rows[1].get("设备").unwrap(), "sdb");
    assert_eq!(t.rows[1].get("数").unwrap(), "2");
    let broken = SystemRule { kind: "regex".into(), pattern: "(".into(), ..SystemRule::default() };
    assert!(extract(&broken, "", "x", &sizes).is_err());
    let unknown = SystemRule { kind: "yaml".into(), ..SystemRule::default() };
    assert_eq!(
        extract(&unknown, "", "x", &sizes).unwrap_err().message(),
        "不支持的提取方式：yaml"
    );
    assert_eq!(
        extract(&SystemRule::default(), "no json", "x", &sizes).unwrap_err().message(),
        "JSON 内容无法解析"
    );
}

fn table(id: &str, rows: Vec<Vec<(&str, &str)>>) -> Table {
    Table {
        id: id.into(),
        name: id.into(),
        group: "g".into(),
        view: "table".into(),
        fields: vec![],
        rows: rows
            .into_iter()
            .map(|cells| {
                let mut row = Row::new();
                for (k, v) in cells {
                    row.insert(k.into(), v.into());
                }
                row
            })
            .collect(),
        storage: vec![],
        raw_text: String::new(),
        source: String::new(),
        warning: String::new(),
    }
}

#[test]
fn joins_fill_what_is_missing_and_only_where_the_partner_is_unique() {
    let rule = SystemRule {
        id: "a".into(),
        join_rule: "b".into(),
        join_key: "id".into(),
        join_foreign_key: "ref".into(),
        ..SystemRule::default()
    };
    let mut tables = vec![
        table("a", vec![
            vec![("id", "1"), ("name", "own")],
            vec![("id", "2")],
            vec![("id", "")],
        ]),
        table("b", vec![
            vec![("ref", "1"), ("name", "other"), ("more", "x")],
            vec![("ref", "2"), ("more", "y")],
            vec![("ref", "2"), ("more", "z")],
        ]),
    ];
    join_tables(&mut tables, &vec![rule]);
    assert_eq!(tables[0].rows[0].get("name").unwrap(), "own");
    assert_eq!(tables[0].rows[0].get("more").unwrap(), "x");
    assert!(tables[0].rows[1].get("more").is_none());
    assert!(tables[0].rows[2].get("more").is_none());
    assert_eq!(tables[0].warning, "部分关联键缺失或不唯一，未合并的来源保留独立展示");
    assert_eq!(tables[1].rows.len(), 3);
}

#[test]
fn rows_keep_one_text_under_each_name_in_order() {
    let mut row = Row::new();
    row.insert("b".into(), "1".into());
    row.insert("a".into(), "2".into());
    row.insert("b".into(), "3".into());
    assert_eq!(row.get("b").unwrap(), "3");
    assert_eq!(row.get("a").unwrap(), "2");
    let names: Vec<_> = row.cells.iter().map(|c| c.0.as_str()).collect();
    assert_eq!(names, ["a", "b"]);
}

#[test]
fn json_paths_name_the_leaves() {
    let leaf = || Json::Scalar("1".into());
    let v = Json::Object(
        vec![
            ("a".into(), Json::Array(vec![Json::Object(vec![("b".into(), leaf())], "{}".into())])),
            ("c".into(), leaf()),
        ],
        "{}".into(),
    );
    let mut out = vec![];
    json_paths(&v, "", &mut out);
    assert_eq!(out, ["a[].b", "c"]);
    assert_eq!(select(&v, "a[].b").len(), 1);
    assert_eq!(val(select(&v, "c")[0]), "1");
    assert_eq!(val(&Json::Null), "");
}
