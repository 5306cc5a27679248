use s3_browser::browser::S3Browser;
use s3_browser::entry::{Entry, ObjectPage, ObjectSummary};
use s3_browser::pick::{picked_file, upload_prompt};
use s3_browser::request::ListObjects;
use s3_browser::screen::{CrumbTarget, EntryAction, RowIcon};

fn text(s: &str) -> String {
    s.to_string()
}

fn page(prefixes: &[&str], objects: &[(&str, i64)]) -> ObjectPage {
    ObjectPage {
        common_prefixes: prefixes.iter().map(|prefix| Some(text(prefix))).collect(),
        contents: objects
            .iter()
            .map(|(key, size)| ObjectSummary { key: Some(text(key)), size: Some(*size) })
            .collect(),
    }
}

/// A window that shows `photos/2024/` of the bucket `pictures`.
fn shown() -> S3Browser {
    let (mut browser, _) = S3Browser::new();
    browser.buckets_loaded(Ok(vec![Some(text("pictures")), Some(text("backup"))]));
    let request = browser.load_objects(text("pictures"), text("photos/2024/"));
    browser.objects_loaded(
        request,
        Ok(page(&["photos/2024/raw/"], &[("photos/2024/", 0), ("photos/2024/a.jpg", 2048)])),
    );
    browser
}

fn keys(browser: &S3Browser) -> Vec<String> {
    browser.entries().iter().map(|entry| entry.key.clone()).collect()
}

fn is_listing(request: &Option<ListObjects>, bucket: &str, prefix: &str) -> bool {
    match request {
        Some(request) => {
            request.bucket == bucket && request.prefix == prefix && request.delimiter == "/"
        }
        None => false,
    }
}

#[test]
fn a_new_window_lists_buckets() {
    let (browser, _) = S3Browser::new();
    assert!(browser.loading());
    assert_eq!(browser.status(), "Listing buckets…");
    assert!(browser.bucket().is_none());
    assert_eq!(browser.prefix(), "");
    assert_eq!(browser.buckets().len(), 0);
    assert_eq!(browser.entries().len(), 0);
}

#[test]
fn buckets_come_in_order() {
    let (mut browser, _) = S3Browser::new();
    browser.buckets_loaded(Ok(vec![Some(text("zoo")), None, Some(text("ant"))]));
    assert!(!browser.loading());
    assert_eq!(browser.status(), "3 buckets");
    assert_eq!(browser.buckets(), &vec![text(""), text("ant"), text("zoo")]);
}

#[test]
fn failed_bucket_listing_shows_its_message() {
    let mut browser = shown();
    browser.load_buckets();
    assert!(browser.loading());
    browser.buckets_loaded(Err(text("no credentials")));
    assert!(!browser.loading());
    assert_eq!(browser.status(), "no credentials");
    assert_eq!(browser.buckets(), &vec![text("backup"), text("pictures")]);
}

#[test]
fn opening_a_bucket_lists_it_from_the_top() {
    let (mut browser, _) = S3Browser::new();
    let request = browser.open_bucket(text("pictures"));
    assert!(browser.loading());
    assert_eq!(browser.status(), "Listing s3://pictures/");
    assert!(browser.bucket().is_none());
    assert!(is_listing(&Some(request), "pictures", ""));
}

#[test]
fn a_listing_shows_what_was_asked_for() {
    let browser = shown();
    assert!(!browser.loading());
    assert_eq!(browser.bucket(), Some(&text("pictures")));
    assert_eq!(browser.prefix(), "photos/2024/");
    assert_eq!(browser.status(), "2 entries");
    assert_eq!(keys(&browser), vec!["photos/2024/raw/", "photos/2024/a.jpg"]);
}

#[test]
fn failed_listing_leaves_what_is_shown() {
    let mut browser = shown();
    let request = browser.load_objects(text("backup"), text("x/"));
    assert_eq!(browser.status(), "Listing s3://backup/x/");
    browser.objects_loaded(request, Err(text("access denied")));
    assert!(!browser.loading());
    assert_eq!(browser.status(), "access denied");
    assert_eq!(browser.bucket(), Some(&text("pictures")));
    assert_eq!(browser.prefix(), "photos/2024/");
    assert_eq!(keys(&browser), vec!["photos/2024/raw/", "photos/2024/a.jpg"]);
}

#[test]
fn listings_may_come_in_any_order() {
    let mut browser = shown();
    let first = browser.open_bucket(text("backup"));
    let second = browser.open_bucket(text("pictures"));
    browser.objects_loaded(second, Ok(page(&[], &[("p", 1)])));
    assert_eq!(browser.bucket(), Some(&text("pictures")));
    browser.objects_loaded(first, Ok(page(&[], &[("b", 1)])));
    assert_eq!(browser.bucket(), Some(&text("backup")));
    assert_eq!(keys(&browser), vec!["b"]);
}

#[test]
fn refreshing_asks_for_the_same_listing() {
    let mut browser = shown();
    let request = browser.refresh_objects();
    assert!(is_listing(&request, "pictures", "photos/2024/"));
    assert_eq!(browser.status(), "Listing s3://pictures/photos/2024/");
    let (mut empty, _) = S3Browser::new();
    assert!(empty.refresh_objects().is_none());
    assert!(empty.open_prefix(text("a/")).is_none());
    assert_eq!(empty.status(), "Listing buckets…");
}

#[test]
fn downloads_are_named_after_the_object() {
    let mut browser = shown();
    let request = browser.download(text("photos/2024/a.jpg")).unwrap();
    assert!(browser.loading());
    assert_eq!(browser.status(), "Downloading a.jpg…");
    assert_eq!(request.bucket, "pictures");
    assert_eq!(request.key, "photos/2024/a.jpg");
    assert_eq!(request.file_name, "a.jpg");
    browser.download_finished(&request, Ok(()));
    assert!(!browser.loading());
    assert_eq!(browser.status(), "Downloaded a.jpg");
    browser.download_finished(&request, Err(text("disk full")));
    assert_eq!(browser.status(), "disk full");
    assert_eq!(keys(&browser).len(), 2);
}

#[test]
fn without_a_bucket_nothing_is_downloaded_or_uploaded() {
    let (mut browser, _) = S3Browser::new();
    browser.buckets_loaded(Ok(Vec::new()));
    assert!(browser.download(text("a")).is_none());
    assert!(browser.upload(Some(text("a"))).is_none());
    assert!(!browser.loading());
    assert_eq!(browser.status(), "0 buckets");
}

#[test]
fn uploads_go_below_the_prefix() {
    let mut browser = shown();
    let request = browser.upload(Some(text("b.jpg"))).unwrap();
    assert!(browser.loading());
    assert_eq!(browser.status(), "Uploading b.jpg…");
    assert_eq!(request.bucket, "pictures");
    assert_eq!(request.key, "photos/2024/b.jpg");
    assert_eq!(request.prefix, "photos/2024/");
    let next = browser.upload_finished(request, Ok(()));
    assert!(is_listing(&next, "pictures", "photos/2024/"));
    assert_eq!(browser.status(), "Listing s3://pictures/photos/2024/");
    assert!(browser.loading());
    browser.objects_loaded(next.unwrap(), Ok(page(&[], &[("photos/2024/b.jpg", 1)])));
    assert_eq!(browser.entries()[0].name(browser.prefix()), "b.jpg");
}

#[test]
fn a_path_without_a_file_name_is_not_uploaded() {
    let mut browser = shown();
    assert!(browser.upload(None).is_none());
    assert_eq!(browser.status(), "2 entries");
}

#[test]
fn failed_upload_shows_its_message() {
    let mut browser = shown();
    let request = browser.upload(Some(text("b.jpg"))).unwrap();
    assert!(browser.upload_finished(request, Err(text("timeout"))).is_none());
    assert!(!browser.loading());
    assert_eq!(browser.status(), "timeout");
}

#[test]
fn an_upload_lists_the_place_that_it_went_to() {
    let mut browser = shown();
    let request = browser.upload(Some(text("b.jpg"))).unwrap();
    let other = browser.load_objects(text("pictures"), text("scans/"));
    browser.objects_loaded(other, Ok(page(&[], &[])));
    let next = browser.upload_finished(request, Ok(()));
    assert!(is_listing(&next, "pictures", "photos/2024/"));
    assert_eq!(browser.status(), "Listing s3://pictures/photos/2024/");
    assert_eq!(browser.prefix(), "scans/");
    browser.objects_loaded(next.unwrap(), Ok(page(&[], &[("photos/2024/b.jpg", 1)])));
    assert_eq!(browser.prefix(), "photos/2024/");
    assert_eq!(browser.entries()[0].name(browser.prefix()), "b.jpg");
}

#[test]
fn an_upload_to_a_bucket_left_meanwhile_lists_what_is_shown() {
    let mut browser = shown();
    let request = browser.upload(Some(text("b.jpg"))).unwrap();
    let other = browser.load_objects(text("backup"), text("old/"));
    browser.objects_loaded(other, Ok(page(&[], &[])));
    let next = browser.upload_finished(request, Ok(()));
    assert!(is_listing(&next, "backup", "old/"));
    assert_eq!(browser.status(), "Listing s3://backup/old/");
    assert_eq!(browser.bucket(), Some(&text("backup")));
    assert_eq!(browser.prefix(), "old/");
}

#[test]
fn an_upload_that_ends_before_a_listing_is_reported() {
    let request = shown().upload(Some(text("b.jpg"))).unwrap();
    let (mut browser, _) = S3Browser::new();
    assert!(browser.upload_finished(request, Ok(())).is_none());
    assert!(!browser.loading());
    assert_eq!(browser.status(), "Uploaded photos/2024/b.jpg");
}

#[test]
fn the_open_bucket_is_selected() {
    let rows = shown().render_bucket_list();
    assert_eq!(rows.len(), 2);
    assert_eq!(rows[0].id, "bucket-backup");
    assert_eq!(rows[0].label, "backup");
    assert!(!rows[0].selected);
    assert!(rows[1].selected);
}

#[test]
fn breadcrumb_accumulates_segments() {
    let (mut browser, _) = S3Browser::new();
    assert_eq!(browser.render_breadcrumb().len(), 0);
    let request = browser.load_objects(text("x"), text("a/b/c/"));
    browser.objects_loaded(request, Ok(page(&[], &[])));
    let crumbs = browser.render_breadcrumb();
    assert_eq!(crumbs[0].id, "crumb-bucket");
    assert_eq!(crumbs[0].label, "x");
    let mut targets: Vec<String> = Vec::new();
    for crumb in &crumbs[1..] {
        if let CrumbTarget::Prefix(target) = &crumb.target {
            assert_eq!(crumb.id, format!("crumb-{target}"));
            targets.push(target.clone());
        }
    }
    assert_eq!(targets, vec!["a/", "a/b/", "a/b/c/"]);
    assert_eq!(crumbs[2].label, "b");
}

#[test]
fn following_a_crumb_shortens_the_breadcrumb() {
    let mut browser = shown();
    let crumbs = browser.render_breadcrumb();
    let request = browser.follow_crumb(&crumbs[1].target);
    assert!(is_listing(&request, "pictures", "photos/"));
    browser.objects_loaded(request.unwrap(), Ok(page(&["photos/2024/"], &[])));
    assert_eq!(browser.render_breadcrumb().len(), 2);
    let top = browser.follow_crumb(&crumbs[0].target);
    assert!(is_listing(&top, "pictures", ""));
    let (mut empty, _) = S3Browser::new();
    assert!(empty.follow_crumb(&crumbs[1].target).is_none());
    assert!(is_listing(&empty.follow_crumb(&crumbs[0].target), "pictures", ""));
}

#[test]
fn rows_show_names_and_sizes() {
    let list = shown().render_entry_list();
    assert!(list.message.is_none());
    assert_eq!(list.rows.len(), 2);
    assert_eq!(list.rows[0].id, "entry-photos/2024/raw/");
    assert_eq!(list.rows[0].name, "raw");
    assert!(matches!(list.rows[0].icon, RowIcon::Folder));
    assert_eq!(list.rows[0].size, None);
    assert_eq!(list.rows[1].name, "a.jpg");
    assert!(matches!(list.rows[1].icon, RowIcon::File));
    assert_eq!(list.rows[1].size, Some(text("2.0 KB")));
    assert_eq!(list.rows[1].entry.key, "photos/2024/a.jpg");
}

#[test]
fn missing_rows_are_explained() {
    let (mut browser, _) = S3Browser::new();
    let pick = Some(text("Pick a bucket on the left to browse its objects."));
    assert_eq!(browser.render_entry_list().message, pick);
    let request = browser.open_bucket(text("x"));
    browser.objects_loaded(request, Ok(page(&[], &[])));
    assert_eq!(browser.render_entry_list().message, Some(text("This prefix is empty.")));
    browser.refresh_objects();
    assert_eq!(browser.render_entry_list().message, None);
}

#[test]
fn screen_shows_all_parts() {
    let screen = shown().render();
    assert!(screen.refresh_enabled);
    assert!(screen.upload_enabled);
    assert_eq!(screen.bucket_list.len(), 2);
    assert_eq!(screen.breadcrumb.len(), 3);
    assert_eq!(screen.entry_list.rows.len(), 2);
    assert!(!screen.status_bar.spinner);
    assert_eq!(screen.status_bar.text, "2 entries");
    let (browser, _) = S3Browser::new();
    let empty = browser.render();
    assert!(!empty.refresh_enabled);
    assert!(!empty.upload_enabled);
    assert!(empty.status_bar.spinner);
    assert_eq!(browser.render_status_bar().text, "Listing buckets…");
}

#[test]
fn a_click_on_a_folder_lists_it() {
    let mut browser = shown();
    let folder = browser.entries()[0].clone();
    match browser.open_entry(&folder) {
        EntryAction::List(request) => {
            assert!(is_listing(&Some(request), "pictures", "photos/2024/raw/"));
        }
        _ => panic!("a folder is listed"),
    }
    assert!(browser.loading());
}

#[test]
fn a_click_on_a_file_asks_before_it_downloads() {
    let mut browser = shown();
    let file = browser.entries()[1].clone();
    match browser.open_entry(&file) {
        EntryAction::Confirm(dialog) => {
            assert_eq!(dialog.title, "Download a.jpg");
            assert_eq!(
                dialog.question,
                "Save s3://pictures/photos/2024/a.jpg to the current directory?"
            );
            assert_eq!(dialog.bucket, "pictures");
            assert_eq!(dialog.key, "photos/2024/a.jpg");
        }
        _ => panic!("a file is confirmed"),
    }
    assert!(!browser.loading());
    assert_eq!(browser.status(), "2 entries");
}

#[test]
fn a_confirmed_download_fetches_what_was_asked_about() {
    let mut browser = shown();
    let file = browser.entries()[1].clone();
    let dialog = browser.confirm_download(&file).unwrap();
    let other = browser.open_bucket(text("backup"));
    browser.objects_loaded(other, Ok(page(&[], &[("photos/2024/a.jpg", 1)])));
    let request = browser.download_confirmed(&dialog);
    assert_eq!(request.bucket, "pictures");
    assert_eq!(request.key, "photos/2024/a.jpg");
    assert_eq!(request.file_name, "a.jpg");
    assert_eq!(browser.status(), "Downloading a.jpg…");
    assert_eq!(browser.bucket(), Some(&text("backup")));
    let direct = browser.download_from(text("elsewhere"), text("x/y"));
    assert_eq!(direct.bucket, "elsewhere");
    assert_eq!(direct.file_name, "y");
}

#[test]
fn the_order_of_a_reply_does_not_matter() {
    let mut one = shown();
    let mut two = shown();
    let for_one = one.open_bucket(text("x"));
    let for_two = two.open_bucket(text("x"));
    one.objects_loaded(for_one, Ok(page(&["b/", "a/"], &[("d", 1), ("c", 2)])));
    two.objects_loaded(for_two, Ok(page(&["a/", "b/"], &[("c", 2), ("d", 1)])));
    assert_eq!(keys(&one), keys(&two));
    one.buckets_loaded(Ok(vec![Some(text("m")), Some(text("n"))]));
    two.buckets_loaded(Ok(vec![Some(text("n")), Some(text("m"))]));
    assert_eq!(one.buckets(), two.buckets());
}

#[test]
fn what_is_shown_comes_from_one_reply() {
    let mut browser = shown();
    let request = browser.load_objects(text("backup"), text("q/"));
    assert_eq!(browser.bucket(), Some(&text("pictures")));
    assert_eq!(browser.prefix(), "photos/2024/");
    browser.objects_loaded(request, Ok(page(&[], &[("q/z", 1)])));
    assert_eq!(browser.bucket(), Some(&text("backup")));
    assert_eq!(browser.prefix(), "q/");
    assert_eq!(keys(&browser), vec!["q/z"]);
}

#[test]
fn without_a_bucket_a_click_does_nothing() {
    let (mut browser, _) = S3Browser::new();
    let folder = Entry { key: text("a/"), size: 0, is_prefix: true };
    let file = Entry { key: text("a"), size: 0, is_prefix: false };
    assert!(matches!(browser.open_entry(&folder), EntryAction::Nothing));
    assert!(matches!(browser.open_entry(&file), EntryAction::Nothing));
    assert!(browser.confirm_download(&file).is_none());
}

#[test]
fn a_listing_depends_on_its_reply_alone() {
    let mut one = shown();
    let (mut two, _) = S3Browser::new();
    let for_one = one.open_bucket(text("x"));
    let for_two = two.open_bucket(text("x"));
    one.objects_loaded(for_one, Ok(page(&["b/", "a/"], &[("d", 1), ("c", 2)])));
    two.objects_loaded(for_two, Ok(page(&["b/", "a/"], &[("d", 1), ("c", 2)])));
    assert_eq!(keys(&one), keys(&two));
    assert_eq!(keys(&one), vec!["a/", "b/", "c", "d"]);
    assert_eq!(one.status(), two.status());
}

#[test]
fn the_first_picked_file_is_taken() {
    let prompt = upload_prompt();
    assert!(prompt.files && !prompt.directories && !prompt.multiple);
    assert_eq!(prompt.prompt, "Choose a file to upload");
    assert_eq!(picked_file::<_, (), ()>(Ok(Ok(Some(vec!["a", "b"])))), Some("a"));
    assert_eq!(picked_file::<&str, (), ()>(Ok(Ok(Some(Vec::new())))), None);
    assert_eq!(picked_file::<&str, (), ()>(Ok(Ok(None))), None);
    assert_eq!(picked_file::<&str, (), ()>(Ok(Err(()))), None);
    assert_eq!(picked_file::<&str, (), ()>(Err(())), None);
}
