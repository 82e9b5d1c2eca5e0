use city_assets::dataset::{order_cities, parse_csv, read_dataset, DatasetError, VOIVODESHIP_COUNT};
use city_assets::entity::City;
use city_assets::fields::{parse_u64, split_fields};

fn header(name: &str) -> String {
    format!(",WOJ. {name},,,,,,")
}

fn row(id: &str, name: &str, powiat: &str, population: u64) -> String {
    format!("{id},{name},{powiat},100,1,{population},50")
}

fn sixteen_regions() -> Vec<String> {
    let mut lines = Vec::new();
    for r in 0..VOIVODESHIP_COUNT {
        lines.push(header(&format!("REGION-{r}")));
        lines.push(row(&format!("{r}01"), &format!("Town {r}"), "Powiat", 10 * r as u64));
    }
    lines
}

#[test]
fn regions_and_cities_are_ordered_by_population() {
    let mut lines = vec![header("DOLNOŚLĄSKIE"), row("1", "Small", "Lubański", 5), row("2", "Big", "Wrocławski", 900), row("3", "Same", "X", 5)];
    lines.extend(sixteen_regions().into_iter().skip(2));
    let text = lines.join("\n");
    let dataset = parse_csv(&text).unwrap();
    assert_eq!(dataset.len(), 16);
    assert_eq!(dataset[0].name, "dolnośląskie");
    let names: Vec<&str> = dataset[0].content.iter().map(|c| c.name.as_str()).collect();
    assert_eq!(names, vec!["Big", "Small", "Same"]);
    assert_eq!(dataset[0].content[0].powiat, "wrocławski");
    assert_eq!(dataset[0].content[0].voivodeship, "dolnośląskie");
    assert_eq!(dataset[1].name, "region-15");
    assert_eq!(dataset[15].name, "region-1");
}

#[test]
fn file_order_is_kept_when_reading() {
    let text = sixteen_regions().join("\r\n") + "\r\n";
    let dataset = read_dataset(&text).unwrap();
    assert_eq!(dataset[0].name, "region-0");
    assert_eq!(dataset[3].content[0].identifier, "301");
    assert_eq!(dataset[3].content[0].total_population, 30);
}

#[test]
fn dataset_errors() {
    let few = sixteen_regions()[..4].join("\n");
    assert_eq!(parse_csv(&few).unwrap_err(), DatasetError::RegionCount { expected: 16, got: 2 });
    let early = row("1", "A", "B", 1);
    assert_eq!(parse_csv(&early).unwrap_err(), DatasetError::RowBeforeRegion);
    let bad_number = format!("{}\n1,A,B,x,1,1,1", header("X"));
    assert_eq!(parse_csv(&bad_number).unwrap_err(), DatasetError::InvalidNumber);
    assert_eq!(parse_csv("a,b,c").unwrap_err(), DatasetError::MissingColumns);
    let no_name = ",Something else,,,,,,";
    assert_eq!(parse_csv(no_name).unwrap_err(), DatasetError::MissingRegionName);
    let mut many = sixteen_regions();
    many.push(header("EXTRA"));
    assert_eq!(parse_csv(&many.join("\n")).unwrap_err(), DatasetError::RegionCount { expected: 16, got: 17 });
}

#[test]
fn fields_and_unsigned_numbers() {
    assert_eq!(split_fields("a,b,,"), vec!["a", "b", ""]);
    assert_eq!(split_fields(",x"), vec!["", "x"]);
    assert!(split_fields("").is_empty());
    assert_eq!(parse_u64("+5"), Some(5));
    assert_eq!(parse_u64("18446744073709551615"), Some(u64::MAX));
    assert_eq!(parse_u64("18446744073709551616"), None);
    assert_eq!(parse_u64("-1"), None);
    assert_eq!(parse_u64(""), None);
}

#[test]
fn ties_keep_their_order() {
    let city = |name: &str, population: u64| City {
        identifier: name.to_string(),
        name: name.to_string(),
        powiat: String::new(),
        area_ha: 0,
        area_km: 0,
        total_population: population,
        population_per_km: 0,
        voivodeship: String::new(),
    };
    let ordered = order_cities(&vec![city("a", 1), city("b", 3), city("c", 1), city("d", 3)]);
    let names: Vec<&str> = ordered.iter().map(|c| c.name.as_str()).collect();
    assert_eq!(names, vec!["b", "d", "a", "c"]);
}
