use clusterfile::read_cluster;
use clusterfile::Cluster;
use clusterfile::ClusterError;

/// A well-formed 13-field data row with the given unit and instance fields.
fn row(unit: &str, instance: &str) -> String {
    format!(
        "i-1,n1,1.2.3.4,10.0.0.1,vol-1,BASE,NONE,subnet-1,sg-1,vpc-1,us-east-2,{},{}",
        unit, instance
    )
}

fn parse_ok(input: &str) -> Cluster {
    match read_cluster(input) {
        Ok(c) => c,
        Err(e) => panic!("expected success, got error: {:?}", e),
    }
}

fn parse_err(input: &str) -> ClusterError {
    match read_cluster(input) {
        Ok(_) => panic!("This should not pass"),
        Err(e) => e,
    }
}

#[test]
fn basic() {
    let input = "\
# cluster file written by the provisioning scripts
# instance_id,name,public_ip,private_ip,volume_id(s),role,efs_id,subnet,security_group,vpc,region,unit,instance
i-0aa1,base-0,3.44.100.7,10.0.0.11,vol-01 vol-02,BASE,fs-900,subnet-3,sg-77,vpc-12,us-east-2,0,0
i-0aa2,edge-0,3.44.100.8,10.0.0.12,vol-03,EDGE,NONE,subnet-3,sg-77,vpc-12,us-east-2,0,1
";
    let cluster = parse_ok(input);
    assert_eq!(cluster.nodes.len(), 2);
    assert_eq!(cluster.vpc, "vpc-12");
    assert_eq!(cluster.region, "us-east-2");
    assert_eq!(cluster.units, 1);
}

#[test]
fn big() {
    let mut input = String::from("# a larger cluster\n");
    for unit in 0..3 {
        for instance in 0..4 {
            input.push_str(&format!(
                "i-{}x{},n-{}-{},1.2.3.4,10.0.0.1,vol-1,BASE,NONE,subnet-1,sg-1,vpc-9,eu-west-1,{},{}\n",
                unit, instance, unit, instance, unit, instance
            ));
        }
    }
    let cluster = parse_ok(&input);
    assert_eq!(cluster.nodes.len(), 12);
    assert_eq!(cluster.vpc, "vpc-9");
    assert_eq!(cluster.region, "eu-west-1");
    // The unit count stays 1 even though three distinct unit indices occur:
    // a documented quirk of the format, preserved as-is.
    assert_eq!(cluster.units, 1);
    assert_eq!(cluster.nodes[0].instance_id, "i-0x0");
    assert_eq!(cluster.nodes[11].instance_id, "i-2x3");
    assert_eq!(cluster.nodes[5].unit, 1);
    assert_eq!(cluster.nodes[5].instance, 1);
}

#[test]
fn one() {
    let input = row("0", "0");
    let cluster = parse_ok(&input);
    assert_eq!(cluster.nodes.len(), 1);
}

#[test]
fn empty() {
    let err = parse_err("# only comments in here\n# nothing else\n");
    assert_eq!(err, ClusterError::NoRecords);
    println!("Expected error");
}

#[test]
fn partial() {
    let input = format!("{}\ni-2,n2,1.2.3.5,10.0.0.2,vol-2,EDGE,NONE\n", row("0", "0"));
    let err = parse_err(&input);
    assert_eq!(err, ClusterError::MalformedRow);
    println!("Expected error");
}

#[test]
fn scenario_minimal_valid() {
    let cluster = parse_ok("i-1,n1,1.2.3.4,10.0.0.1,vol-1,BASE,NONE,subnet-1,sg-1,vpc-1,us-east-2,0,0");
    assert_eq!(cluster.vpc, "vpc-1");
    assert_eq!(cluster.region, "us-east-2");
    assert_eq!(cluster.units, 1);
    assert_eq!(cluster.nodes.len(), 1);
    let node = &cluster.nodes[0];
    assert_eq!(node.instance_id, "i-1");
    assert_eq!(node.name, "n1");
    assert_eq!(node.pub_ip, "1.2.3.4");
    assert_eq!(node.pri_ip, "10.0.0.1");
    assert_eq!(node.volume_id, "vol-1");
    assert_eq!(node.role, "BASE");
    assert_eq!(node.efs_id, "NONE");
    assert_eq!(node.subnet, "subnet-1");
    assert_eq!(node.security_group, "sg-1");
    assert_eq!(node.unit, 0);
    assert_eq!(node.instance, 0);
}

#[test]
fn scenario_zero_bytes() {
    assert_eq!(parse_err(""), ClusterError::NoRecords);
}

#[test]
fn scenario_truncated_row() {
    // Ten comma-separated fields: the shape failure, distinct from content.
    assert_eq!(
        parse_err("i-1,n1,1.2.3.4,10.0.0.1,vol-1,BASE,NONE,subnet-1,sg-1,vpc-1"),
        ClusterError::MalformedRow
    );
}

#[test]
fn scenario_bad_unit_field() {
    assert_eq!(parse_err(&row("x", "0")), ClusterError::InvalidNumericField);
}

#[test]
fn scenario_two_rows() {
    let input = "\
i-1,n1,1.2.3.4,10.0.0.1,vol-1,BASE,NONE,subnet-1,sg-1,vpc-1,us-east-2,0,0
i-2,n2,1.2.3.5,10.0.0.2,vol-2,BASE,NONE,subnet-1,sg-1,vpc-1,us-east-2,0,1
";
    let cluster = parse_ok(input);
    assert_eq!(cluster.nodes.len(), 2);
    assert_eq!(cluster.nodes[0].name, "n1");
    assert_eq!(cluster.nodes[1].name, "n2");
    assert_eq!(cluster.nodes[0].instance, 0);
    assert_eq!(cluster.nodes[1].instance, 1);
    assert_eq!(cluster.vpc, "vpc-1");
    assert_eq!(cluster.region, "us-east-2");
}

#[test]
fn vpc_region_from_first_row_only() {
    let input = "\
i-1,n1,1.2.3.4,10.0.0.1,vol-1,BASE,NONE,subnet-1,sg-1,vpc-first,region-first,0,0
i-2,n2,1.2.3.5,10.0.0.2,vol-2,BASE,NONE,subnet-1,sg-1,vpc-other,region-other,0,1
";
    let cluster = parse_ok(input);
    assert_eq!(cluster.vpc, "vpc-first");
    assert_eq!(cluster.region, "region-first");
    assert_eq!(cluster.nodes.len(), 2);
}

#[test]
fn comments_never_affect_the_result() {
    let bare = format!("{}\n{}", row("0", "0"), row("1", "2"));
    let commented = format!(
        "# leading comment\n#,a,comment,with,commas\n{}\n# between\n\n{}\n# trailing\n",
        row("0", "0"),
        row("1", "2")
    );
    let c1 = parse_ok(&bare);
    let c2 = parse_ok(&commented);
    assert_eq!(c1, c2);
    assert_eq!(c2.nodes.len(), 2);
    assert_eq!(c2.nodes[0].unit, 0);
    assert_eq!(c2.nodes[1].unit, 1);
}

#[test]
fn parse_twice_is_idempotent() {
    let input = format!(
        "# header\n{}\n{}\n",
        row("0", "0"),
        "i-2,n2,5.6.7.8,10.0.0.2, vol-2 vol-3,EDGE,fs-1,subnet-2,sg-2,vpc-1,us-east-2,1,4"
    );
    let first = parse_ok(&input);
    let second = parse_ok(&input);
    assert_eq!(first, second);
}

#[test]
fn trailing_newline_is_immaterial() {
    let without = row("3", "4");
    let with = format!("{}\n", without);
    assert_eq!(parse_ok(&without), parse_ok(&with));
}

#[test]
fn extra_fields_are_tolerated() {
    let input = format!("{},extra-a,extra-b", row("7", "8"));
    let cluster = parse_ok(&input);
    assert_eq!(cluster.nodes.len(), 1);
    assert_eq!(cluster.nodes[0].unit, 7);
    assert_eq!(cluster.nodes[0].instance, 8);
}

#[test]
fn field_whitespace_is_preserved() {
    let input = "i-1,n1,1.2.3.4,10.0.0.1, vol-1 vol-2,BASE,NONE,subnet-1,sg-1,vpc-1,us-east-2,0,0";
    let cluster = parse_ok(input);
    assert_eq!(cluster.nodes[0].volume_id, " vol-1 vol-2");
}

#[test]
fn first_bad_row_decides_the_error() {
    // Row 2 is truncated, row 3 has a bad numeric field: the earlier failure wins.
    let input = format!("{}\nshort,row\n{}\n", row("0", "0"), row("x", "0"));
    assert_eq!(parse_err(&input), ClusterError::MalformedRow);
    // And the other way around.
    let input = format!("{}\n{}\nshort,row\n", row("0", "0"), row("x", "0"));
    assert_eq!(parse_err(&input), ClusterError::InvalidNumericField);
}

#[test]
fn no_partial_result_on_failure() {
    // A valid first row does not produce a partial cluster when a later row fails.
    let input = format!("{}\nbroken", row("0", "0"));
    assert!(matches!(read_cluster(&input), Err(ClusterError::MalformedRow)));
}

#[test]
fn numeric_range_edges() {
    let ok = parse_ok(&row("4294967295", "0"));
    assert_eq!(ok.nodes[0].unit, u32::MAX);
    assert_eq!(parse_err(&row("4294967296", "0")), ClusterError::InvalidNumericField);
    assert_eq!(parse_err(&row("0", "99999999999999999999")), ClusterError::InvalidNumericField);
}

#[test]
fn numeric_forms() {
    // Leading zeros and a single leading plus sign are accepted.
    assert_eq!(parse_ok(&row("007", "0")).nodes[0].unit, 7);
    assert_eq!(parse_ok(&row("+3", "0")).nodes[0].unit, 3);
    // Signs other than a single plus, blanks, and embedded spaces are not.
    assert_eq!(parse_err(&row("-1", "0")), ClusterError::InvalidNumericField);
    assert_eq!(parse_err(&row("", "0")), ClusterError::InvalidNumericField);
    assert_eq!(parse_err(&row(" 1", "0")), ClusterError::InvalidNumericField);
    assert_eq!(parse_err(&row("1 ", "0")), ClusterError::InvalidNumericField);
    assert_eq!(parse_err(&row("++1", "0")), ClusterError::InvalidNumericField);
    assert_eq!(parse_err(&row("1.5", "0")), ClusterError::InvalidNumericField);
}

#[test]
fn exactly_thirteen_fields_required() {
    // Twelve fields: one short of the required shape.
    assert_eq!(
        parse_err("a,b,c,d,e,f,g,h,i,j,k,0"),
        ClusterError::MalformedRow
    );
}
