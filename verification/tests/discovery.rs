use jevx::discovery::{
    extract_frontmatter, is_skill_file_name, is_skipped_dir_name, project_roots, select_skills,
    skill_from_frontmatter, SkillRoot,
};
use jevx::types::SkillRecord;

fn skill(id: &str, source: &str) -> SkillRecord {
    SkillRecord::new(id.to_owned(), "d".to_owned(), format!("/{source}/{id}/SKILL.md"), source.to_owned())
}

#[test]
fn frontmatter_and_file_rules() {
    assert_eq!(extract_frontmatter("---\nname: a\n---\nbody").as_deref(), Some("name: a"));
    assert_eq!(extract_frontmatter("name: a\n---\n"), None);
    assert_eq!(extract_frontmatter("---\nname: a\n"), None);
    assert!(is_skill_file_name("SKILL.md"));
    assert!(!is_skill_file_name("skill.md"));
    assert!(is_skipped_dir_name(".git"));
    assert!(is_skipped_dir_name("target"));
    assert!(!is_skipped_dir_name("src"));
    let record = skill_from_frontmatter(Some("  pdf "), Some(" Read PDFs "), "/s/pdf/SKILL.md", "user").expect("skill");
    assert_eq!(record.id, "pdf");
    assert_eq!(record.name, "pdf");
    assert_eq!(record.description, "Read PDFs");
    assert!(skill_from_frontmatter(Some(" "), Some("d"), "/p", "user").is_none());
    assert!(skill_from_frontmatter(Some("a"), None, "/p", "user").is_none());
}

#[test]
fn lower_priority_root_wins_and_skills_sort_by_name() {
    let root = SkillRoot::new("/r".to_owned(), "user".to_owned(), 3);
    assert_eq!(root.priority, 3);
    let roots = project_roots(&vec!["/a".to_owned(), "/b".to_owned()]);
    assert_eq!(roots[1].priority, 1);
    assert_eq!(roots[1].source, "project");
    let found = vec![
        (1, skill("Zeta", "project")),
        (1, skill("pdf", "project")),
        (0, skill("PDF", "user")),
        (0, skill("alpha", "user")),
        (0, skill("alpha", "other")),
    ];
    let selected = select_skills(&found);
    let ids = selected.iter().map(|s| (s.id.clone(), s.source.clone())).collect::<Vec<_>>();
    assert_eq!(
        ids,
        vec![
            ("alpha".to_owned(), "user".to_owned()),
            ("PDF".to_owned(), "user".to_owned()),
            ("Zeta".to_owned(), "project".to_owned()),
        ]
    );
}
