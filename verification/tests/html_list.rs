use databus::html_list::{HtmlListProducer, HtmlListProducerError, HtmlListProducerState, ParsedUrl};
use databus::message::MessageType;

fn producer(from_back: bool) -> HtmlListProducer<20> {
    HtmlListProducer::<20>::new("https://example.com", "ul.list-class", "a.link-class", from_back).unwrap()
}

#[test]
fn test_extract_returns_matching_links_only() {
    let producer = producer(false);
    let mock_html = r#"
        <html>
            <body>
                <ul class="list-class">
                    <li><a class="link-class" href="/page1">One</a></li>
                    <li><a class="link-class" href="/page2">Two</a></li>
                </ul>
                <div class="other-class">
                    <a class="link-class" href="/ignored">Ignored</a>
                </div>
            </body>
        </html>
    "#;
    let results = producer.extract(mock_html);
    assert_eq!(results.len(), 2);
    assert_eq!(results[0], "/page1");
    assert_eq!(results[1], "/page2");
}

#[test]
fn test_extract_skips_elements_without_href() {
    let producer = producer(false);
    let mock_html = r#"
        <html>
            <body>
                <ul class="list-class">
                    <li><a class="link-class">Missing href</a></li>
                    <li><a class="link-class" href="/page2">Two</a></li>
                </ul>
            </body>
        </html>
    "#;
    let results = producer.extract(mock_html);
    assert_eq!(results, vec!["/page2".to_string()]);
}

#[test]
fn test_new_rejects_invalid_target_url() {
    let error = match HtmlListProducer::<20>::new("not-a-url", "ul.list-class", "a.link-class", false) {
        Ok(_) => panic!("expected invalid URL"),
        Err(error) => error,
    };
    assert!(matches!(error, HtmlListProducerError::CreationError(_)));
    assert!(error.to_string().contains("Invalid target URL 'not-a-url'"));
}

#[test]
fn test_new_rejects_invalid_tree_path_selector() {
    let error = match HtmlListProducer::<20>::new("https://example.com", "ul.list-class[", "a.link-class", false) {
        Ok(_) => panic!("expected invalid tree selector"),
        Err(error) => error,
    };
    assert!(matches!(error, HtmlListProducerError::CreationError(_)));
    assert!(error.to_string().contains("Invalid tree path selector 'ul.list-class['"));
}

#[test]
fn test_new_rejects_invalid_sub_path_selector() {
    let error = match HtmlListProducer::<20>::new("https://example.com", "ul.list-class", "a.link-class[", false) {
        Ok(_) => panic!("expected invalid sub-path selector"),
        Err(error) => error,
    };
    assert!(matches!(error, HtmlListProducerError::CreationError(_)));
    assert!(error.to_string().contains("Invalid URL path selector 'a.link-class['"));
}

#[test]
fn test_get_filename_from_url_returns_last_path_segment() {
    let producer = producer(false);
    let url = ParsedUrl::parse("https://example.com/datasets/report.csv").unwrap();
    let filename = producer.get_filename_from_url(&url).unwrap();
    assert_eq!(filename, "report.csv");
}

#[test]
fn test_get_filename_from_url_rejects_urls_without_path_segments() {
    let producer = producer(false);
    let url = ParsedUrl::parse("mailto:test@example.com").unwrap();
    let error = match producer.get_filename_from_url(&url) {
        Ok(_) => panic!("expected filename extraction to fail"),
        Err(error) => error,
    };
    assert!(matches!(error, HtmlListProducerError::ExtractError(_)));
    assert_eq!(error.to_string(), "Failed to extract data: Failed to extract dataset name from URL");
}

fn links() -> Vec<String> {
    vec!["http://h/dataset-1.csv".to_string(), "http://h/dataset-2.csv".to_string()]
}

#[test]
fn select_link_follows_the_checkpoint() {
    let forward = producer(false);
    assert_eq!(forward.select_link(&links(), &None), Some("http://h/dataset-1.csv".to_string()));
    assert_eq!(
        forward.select_link(&links(), &Some("http://h/dataset-1.csv".to_string())),
        Some("http://h/dataset-2.csv".to_string())
    );
    assert_eq!(forward.select_link(&links(), &Some("http://h/dataset-2.csv".to_string())), None);
    assert_eq!(
        forward.select_link(&links(), &Some("http://h/unknown".to_string())),
        Some("http://h/dataset-1.csv".to_string())
    );
    assert_eq!(forward.select_link(&Vec::new(), &None), None);
    let backward = producer(true);
    assert_eq!(backward.select_link(&links(), &None), Some("http://h/dataset-2.csv".to_string()));
}

#[test]
fn finish_produce_publishes_content_with_its_file_name() {
    let producer = producer(false);
    let link = "http://h/data/dataset-1.csv".to_string();
    let url = ParsedUrl::parse(&link).unwrap();
    let state = HtmlListProducerState { last_extracted_url: None };
    let (message, state) = producer.finish_produce(state, link.clone(), &url, Some(vec![1u8, 2]), Vec::new());
    assert_eq!(*message.message_type(), MessageType::Data);
    assert_eq!(*message.payload(), vec![1u8, 2]);
    assert_eq!(message.meta_by_key("filename"), Some("dataset-1.csv"));
    assert_eq!(state.last_extracted_url, Some(link.clone()));

    let (empty, kept) = producer.finish_produce(state, link, &url, None, Vec::<u8>::new());
    assert_eq!(*empty.message_type(), MessageType::Empty);
    assert!(empty.payload().is_empty());
    assert_eq!(kept.last_extracted_url, Some("http://h/data/dataset-1.csv".to_string()));
}

#[test]
fn parsed_url_keeps_serialization_and_path() {
    let url = ParsedUrl::parse("https://example.com/api/versions?page=2").unwrap();
    assert_eq!(url.as_str(), "https://example.com/api/versions?page=2");
    assert_eq!(url.path(), "/api/versions");
    assert!(ParsedUrl::parse("not a url").is_err());
}

#[test]
fn from_checks_reports_the_first_failed_check() {
    let url = ParsedUrl::parse("https://example.com/list").unwrap();
    let r = HtmlListProducer::<32>::from_checks(
        "https://example.com/list",
        Ok(url),
        "ul",
        Some("bad tree".to_string()),
        "a",
        Some("bad sub".to_string()),
        false,
    );
    match r {
        Err(HtmlListProducerError::CreationError(m)) => assert_eq!(m, "Invalid tree path selector 'ul': bad tree"),
        _ => panic!("expected a creation error"),
    }
    let r = HtmlListProducer::<32>::from_checks("x", Err("no scheme".to_string()), "ul", None, "a", None, true);
    match r {
        Err(e) => assert_eq!(e.to_string(), "Failed to create HtmlListProducer: Invalid target URL 'x': no scheme"),
        _ => panic!("expected a creation error"),
    }
}

#[test]
fn successive_runs_walk_the_links_in_order() {
    let links = vec!["http://h/a.csv".to_string(), "http://h/b.csv".to_string(), "http://h/c.csv".to_string()];
    for (from_back, expected) in [(false, ["a", "b", "c"]), (true, ["c", "b", "a"])] {
        let producer = producer(from_back);
        let mut checkpoint: Option<String> = None;
        for name in expected {
            let next = producer.select_link(&links, &checkpoint).unwrap();
            assert_eq!(next, format!("http://h/{}.csv", name));
            checkpoint = Some(next);
        }
        assert_eq!(producer.select_link(&links, &checkpoint), None);
    }
}

#[test]
fn nothing_new_keeps_the_state_and_publishes_the_empty_message() {
    let state = HtmlListProducerState { last_extracted_url: Some("http://h/a.csv".to_string()) };
    let (message, kept) = HtmlListProducer::<20>::nothing_new(state, Vec::<u8>::new());
    assert_eq!(*message.message_type(), MessageType::Empty);
    assert!(message.payload().is_empty());
    assert!(message.into_meta().is_none());
    assert_eq!(kept.last_extracted_url, Some("http://h/a.csv".to_string()));
}

#[test]
fn next_fetch_gives_the_next_link_with_its_url() {
    let producer = producer(false);
    let links = vec!["http://h/a.csv".to_string(), "not a url".to_string()];
    let (link, url) = producer.next_fetch(&links, &None).unwrap();
    assert_eq!(link, "http://h/a.csv");
    assert_eq!(url.path(), "/a.csv");
    assert!(producer.next_fetch(&links, &Some("http://h/a.csv".to_string())).is_none());
    assert!(producer.next_fetch(&links, &Some("not a url".to_string())).is_none());
}
