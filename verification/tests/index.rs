use hyfetcher::index::TreeNode;
use hyfetcher::index::build_index_tree;
use hyfetcher::index::post_path_segments;
use hyfetcher::index::render_index_html;
use hyfetcher::model::Post;
use hyfetcher::text::split_segments;

fn post(title: &str, category: &str, subdir: &str) -> Post {
    Post::new(
        format!("https://example.net/{}", title),
        title.to_string(),
        category.to_string(),
        subdir.to_string(),
        "batch".to_string(),
    )
}

#[test]
fn split_segments_drops_empty_parts() {
    assert_eq!(split_segments("a/b"), vec!["a".to_string(), "b".to_string()]);
    assert_eq!(split_segments("a//b/"), vec!["a".to_string(), "b".to_string()]);
    assert_eq!(split_segments(""), Vec::<String>::new());
    assert_eq!(split_segments("///"), Vec::<String>::new());
    assert_eq!(split_segments("one"), vec!["one".to_string()]);
}

#[test]
fn path_segments_walk_category_then_subdir() {
    let p = post("t", "cat", "a/b");
    assert_eq!(
        post_path_segments(&p),
        vec!["cat".to_string(), "a".to_string(), "b".to_string()]
    );
    let q = post("t", "", "a");
    assert_eq!(post_path_segments(&q), vec!["a".to_string()]);
}

#[test]
fn two_categories_give_two_top_level_nodes() {
    let posts = vec![post("p1", "A", ""), post("p2", "A", ""), post("p3", "B", "")];
    let tree = build_index_tree(&posts);
    assert_eq!(tree.name, "root");
    assert_eq!(tree.children.len(), 2);
    let a = &tree.children[0];
    let b = &tree.children[1];
    assert_eq!(a.name, "A");
    assert_eq!(b.name, "B");
    assert_eq!(a.files.len(), 2);
    assert_eq!(a.files[0].title, "p1");
    assert_eq!(a.files[1].title, "p2");
    assert_eq!(b.files.len(), 1);
    assert_eq!(b.files[0].title, "p3");
    assert!(tree.files.is_empty());
}

#[test]
fn subdirectories_create_intermediate_nodes() {
    let posts = vec![post("deep", "A", "x/y"), post("shallow", "A", "")];
    let tree = build_index_tree(&posts);
    assert_eq!(tree.children.len(), 1);
    let a = &tree.children[0];
    assert_eq!(a.files.len(), 1);
    assert_eq!(a.files[0].title, "shallow");
    assert_eq!(a.children.len(), 1);
    let x = &a.children[0];
    assert_eq!(x.name, "x");
    assert!(x.files.is_empty());
    assert_eq!(x.children.len(), 1);
    let y = &x.children[0];
    assert_eq!(y.name, "y");
    assert_eq!(y.files.len(), 1);
    assert_eq!(y.files[0].title, "deep");
}

#[test]
fn children_stand_in_first_seen_order() {
    let posts = vec![post("p1", "B", ""), post("p2", "A", ""), post("p3", "B", "")];
    let tree = build_index_tree(&posts);
    assert_eq!(tree.children.len(), 2);
    assert_eq!(tree.children[0].name, "B");
    assert_eq!(tree.children[1].name, "A");
}

#[test]
fn get_or_create_child_reuses_existing_names() {
    let mut node = TreeNode::new("root".to_string());
    let first = node.get_or_create_child("A".to_string());
    let second = node.get_or_create_child("A".to_string());
    let third = node.get_or_create_child("B".to_string());
    assert_eq!(first, second);
    assert_ne!(first, third);
    assert_eq!(node.children.len(), 2);
}

#[test]
fn add_file_appends_in_order() {
    let mut node = TreeNode::new("n".to_string());
    node.add_file(post("one", "A", ""));
    node.add_file(post("two", "A", ""));
    assert_eq!(node.files.len(), 2);
    assert_eq!(node.files[0].title, "one");
    assert_eq!(node.files[1].title, "two");
}

#[test]
fn rendered_index_links_every_post() {
    let posts = vec![post("p1", "A", ""), post("p3", "B", "")];
    let tree = build_index_tree(&posts);
    let html = render_index_html(&tree);
    assert!(html.starts_with("<!DOCTYPE html>"));
    assert!(html.ends_with("</body>\n</html>"));
    assert!(html.contains("<h2>A</h2>"));
    assert!(html.contains("<h2>B</h2>"));
    assert!(html.contains("<a href=\"A/batch/p1.html\">p1</a>"));
    assert!(html.contains("<a href=\"B/batch/p3.html\">p3</a>"));
    assert!(html.contains("https://example.net/p1"));
}

#[test]
fn leaf_without_files_renders_placeholder() {
    let mut root = TreeNode::new("root".to_string());
    let idx = root.get_or_create_child("Empty".to_string());
    assert_eq!(idx, 0);
    let html = render_index_html(&root);
    assert!(html.contains("<div class=\"empty-message\">No files in this category</div>"));
}

#[test]
fn subcategories_render_with_h3() {
    let posts = vec![post("deep", "A", "x")];
    let tree = build_index_tree(&posts);
    let html = render_index_html(&tree);
    assert!(html.contains("<h2>A</h2>"));
    assert!(html.contains("<h3>x</h3>"));
}
